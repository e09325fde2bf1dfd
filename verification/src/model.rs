//! What a call to the pool does, as mathematics: from the storage it starts with and
//! the answers that the token contract gives, to the outcome, the storage it leaves
//! and the calls it makes to the outside.
//!
//! Addresses are given by their strkeys.
use vstd::prelude::*;

use crate::errors::PoolError;
use crate::host::{BalanceReply, EventData, HostCall};
#[allow(unused_imports)]
use crate::host;

verus! {

/// Storage key of the admin.
pub const ADMIN_KEY: &'static str = "admin";

/// Storage key of the address that the admin role has been offered to.
pub const PENDING_ADMIN_KEY: &'static str = "pending_admin";

/// Storage key of the token that the pool holds and pays out.
pub const USDC_KEY: &'static str = "usdc";

/// Name of the event that `init` publishes.
pub const INIT_EVENT: &'static str = "init";

/// Name of the event that `set_admin` publishes.
pub const TRANSFER_STARTED_EVENT: &'static str = "admin_transfer_started";

/// Name of the event that `claim_admin` publishes.
pub const TRANSFER_COMPLETED_EVENT: &'static str = "admin_transfer_completed";

/// Name of the event that `receive_payment` publishes.
pub const RECEIVE_PAYMENT_EVENT: &'static str = "receive_payment";

/// Name of the event that `distribute` publishes.
pub const DISTRIBUTE_EVENT: &'static str = "distribute";

/// Name of the event that `batch_distribute` publishes for each payment.
pub const BATCH_DISTRIBUTE_EVENT: &'static str = "batch_distribute";

/// The strkey of an address.
pub type Key = Seq<u8>;

/// The instance storage: under each key an address, or `None` for something else.
pub type Storage = Map<Seq<char>, Option<Key>>;

/// The entries of a batch: recipient and amount, or `None` for something else.
pub type Payments = Seq<Option<(Key, i128)>>;

/// What comes of a call.
#[verifier::ext_equal]
pub struct Step {
    /// What the call returns.
    pub outcome: Result<(), PoolError>,
    /// The storage that it leaves.
    pub storage: Storage,
    /// The calls that it makes to the outside, in order.
    pub calls: Seq<HostCall>,
}

/// What the token contract answers in the course of a `distribute`, should it be asked.
pub struct Replies {
    /// The balance of the recipient.
    pub recipient: BalanceReply,
    /// The balance of the pool.
    pub holdings: BalanceReply,
    /// Whether it carries out the transfer.
    pub sent: bool,
}

/// A step that ends in `error` and leaves the storage as it was.
pub open spec fn refused(storage: Storage, calls: Seq<HostCall>, error: PoolError) -> Step {
    Step { outcome: Err(error), storage, calls }
}

/// The address that is kept under `key`, if there is one.
pub open spec fn address_at(storage: Storage, key: Seq<char>) -> Option<Key> {
    if storage.contains_key(key) {
        storage[key]
    } else {
        None
    }
}

/// The admin of the pool.
pub open spec fn admin_of(storage: Storage) -> Option<Key> {
    address_at(storage, ADMIN_KEY@)
}

/// The address that the admin role has been offered to.
pub open spec fn pending_of(storage: Storage) -> Option<Key> {
    address_at(storage, PENDING_ADMIN_KEY@)
}

/// The token that the pool holds.
pub open spec fn token_of(storage: Storage) -> Option<Key> {
    address_at(storage, USDC_KEY@)
}

/// Whether the pool at `me` may be set up with this admin and this token.
pub open spec fn config_check(me: Key, admin: Key, token: Key, initialized: bool) -> Result<
    (),
    PoolError,
> {
    if token == me {
        Err(PoolError::TokenIsContract)
    } else if token == admin {
        Err(PoolError::TokenIsAdmin)
    } else if initialized {
        Err(PoolError::AlreadyInitialized)
    } else {
        Ok(())
    }
}

/// Whether `caller` is the admin.
pub open spec fn admin_check(admin: Option<Key>, caller: Key) -> Result<(), PoolError> {
    match admin {
        None => Err(PoolError::NotInitialized),
        Some(admin) => if caller != admin {
            Err(PoolError::Unauthorized)
        } else {
            Ok(())
        },
    }
}

/// Whether `caller` is the address that the admin role has been offered to.
pub open spec fn pending_check(pending: Option<Key>, caller: Key) -> Result<(), PoolError> {
    match pending {
        None => Err(PoolError::NoPendingAdmin),
        Some(pending) => if caller != pending {
            Err(PoolError::NotPendingAdmin)
        } else {
            Ok(())
        },
    }
}

/// Whether a token can be called.
pub open spec fn token_check(token: Key) -> Result<(), PoolError> {
    if !host::is_contract_key(token) {
        Err(PoolError::TokenNotContract)
    } else {
        Ok(())
    }
}

/// Whether the pool at `me` may pay to `to`.
pub open spec fn recipient_check(to: Key, me: Key) -> Result<(), PoolError> {
    if to == me {
        Err(PoolError::RecipientIsContract)
    } else {
        Ok(())
    }
}

/// Whether an amount may be paid out.
pub open spec fn amount_check(amount: i128) -> Result<(), PoolError> {
    if amount <= 0 {
        Err(PoolError::AmountNotPositive)
    } else {
        Ok(())
    }
}

/// Whether the token contract knows the recipient, by its answer when asked for the
/// recipient's balance. What the balance is does not matter.
pub open spec fn known_check(reply: BalanceReply) -> Result<(), PoolError> {
    match reply {
        BalanceReply::Failed => Err(PoolError::UnknownRecipient),
        _ => Ok(()),
    }
}

/// The balance that the token contract answered with.
pub open spec fn reported(reply: BalanceReply) -> Result<i128, PoolError> {
    match reply {
        BalanceReply::Amount(balance) => Ok(balance),
        _ => Err(PoolError::TokenFailed),
    }
}

/// Whether the pool holds `needed`, by the token contract's answer when asked for the
/// pool's balance.
pub open spec fn funds_check(reply: BalanceReply, needed: i128) -> Result<(), PoolError> {
    match reported(reply) {
        Err(error) => Err(error),
        Ok(balance) => if balance < needed {
            Err(PoolError::InsufficientBalance)
        } else {
            Ok(())
        },
    }
}

/// What `get_admin` returns.
pub open spec fn get_admin_outcome(storage: Storage) -> Result<Key, PoolError> {
    match admin_of(storage) {
        None => Err(PoolError::NotInitialized),
        Some(admin) => Ok(admin),
    }
}

/// What `init` does to the pool at `me`.
pub open spec fn init_step(storage: Storage, me: Key, admin: Key, token: Key) -> Step {
    let asked = seq![HostCall::Authorize { who: admin }];
    match config_check(me, admin, token, storage.contains_key(ADMIN_KEY@)) {
        Err(error) => refused(storage, asked, error),
        Ok(()) => Step {
            outcome: Ok(()),
            storage: storage.insert(ADMIN_KEY@, Some(admin)).insert(USDC_KEY@, Some(token)),
            calls: asked.push(
                HostCall::Publish {
                    name: INIT_EVENT@,
                    subject: admin,
                    data: EventData::Address(token),
                },
            ),
        },
    }
}

/// What `set_admin` does.
pub open spec fn set_admin_step(storage: Storage, caller: Key, new_admin: Key) -> Step {
    let asked = seq![HostCall::Authorize { who: caller }];
    match admin_check(admin_of(storage), caller) {
        Err(error) => refused(storage, asked, error),
        Ok(()) => Step {
            outcome: Ok(()),
            storage: storage.insert(PENDING_ADMIN_KEY@, Some(new_admin)),
            calls: asked.push(
                HostCall::Publish {
                    name: TRANSFER_STARTED_EVENT@,
                    subject: caller,
                    data: EventData::Address(new_admin),
                },
            ),
        },
    }
}

/// What `claim_admin` does.
pub open spec fn claim_admin_step(storage: Storage, caller: Key) -> Step {
    let asked = seq![HostCall::Authorize { who: caller }];
    match pending_check(pending_of(storage), caller) {
        Err(error) => refused(storage, asked, error),
        Ok(()) => Step {
            outcome: Ok(()),
            storage: storage.insert(ADMIN_KEY@, Some(caller)).remove(PENDING_ADMIN_KEY@),
            calls: asked.push(
                HostCall::Publish {
                    name: TRANSFER_COMPLETED_EVENT@,
                    subject: caller,
                    data: EventData::Empty,
                },
            ),
        },
    }
}

/// What `receive_payment` does.
pub open spec fn receive_payment_step(
    storage: Storage,
    caller: Key,
    amount: i128,
    from_vault: bool,
) -> Step {
    let asked = seq![HostCall::Authorize { who: caller }];
    match admin_check(admin_of(storage), caller) {
        Err(error) => refused(storage, asked, error),
        Ok(()) => Step {
            outcome: Ok(()),
            storage,
            calls: asked.push(
                HostCall::Publish {
                    name: RECEIVE_PAYMENT_EVENT@,
                    subject: caller,
                    data: EventData::Payment(amount, from_vault),
                },
            ),
        },
    }
}

/// What is tested before a `distribute` turns to the token contract, in this order.
pub open spec fn distribute_check(
    storage: Storage,
    me: Key,
    caller: Key,
    to: Key,
    amount: i128,
) -> Result<(), PoolError> {
    if admin_check(admin_of(storage), caller) is Err {
        admin_check(admin_of(storage), caller)
    } else if amount_check(amount) is Err {
        amount_check(amount)
    } else if token_of(storage) is None {
        Err(PoolError::NotInitialized)
    } else if recipient_check(to, me) is Err {
        recipient_check(to, me)
    } else {
        token_check(token_of(storage)->0)
    }
}

/// What `distribute` does to the pool at `me`, given what the token contract answers.
pub open spec fn distribute_step(
    storage: Storage,
    me: Key,
    caller: Key,
    to: Key,
    amount: i128,
    replies: Replies,
) -> Step {
    let asked = seq![HostCall::Authorize { who: caller }];
    let token = token_of(storage)->0;
    let looked_up = asked.push(
        HostCall::Balance { token, holder: to, reply: replies.recipient },
    );
    let counted = looked_up.push(
        HostCall::Balance { token, holder: me, reply: replies.holdings },
    );
    let sent = counted.push(
        HostCall::Transfer { token, from: me, to, amount, done: replies.sent },
    );
    if let Err(error) = distribute_check(storage, me, caller, to, amount) {
        refused(storage, asked, error)
    } else if let Err(error) = known_check(replies.recipient) {
        refused(storage, looked_up, error)
    } else if let Err(error) = funds_check(replies.holdings, amount) {
        refused(storage, counted, error)
    } else if !replies.sent {
        refused(storage, sent, PoolError::TokenFailed)
    } else {
        Step {
            outcome: Ok(()),
            storage,
            calls: sent.push(
                HostCall::Publish {
                    name: DISTRIBUTE_EVENT@,
                    subject: to,
                    data: EventData::Amount(amount),
                },
            ),
        }
    }
}

/// The sum of a running total and one more payment.
pub open spec fn add_amount(total: i128, amount: i128) -> Result<i128, PoolError> {
    if amount <= 0 {
        Err(PoolError::AmountNotPositive)
    } else if total + amount > i128::MAX {
        Err(PoolError::TotalOverflow)
    } else {
        Ok((total + amount) as i128)
    }
}

/// The total of the first `count` entries of a batch, or what is wrong with the first
/// of them that cannot be counted.
pub open spec fn batch_total(payments: Payments, count: nat) -> Result<i128, PoolError>
    decreases count,
{
    if count == 0 {
        Ok(0)
    } else {
        match batch_total(payments, (count - 1) as nat) {
            Err(error) => Err(error),
            Ok(total) => match payments[count - 1] {
                None => Err(PoolError::MalformedPayment),
                Some((_, amount)) => add_amount(total, amount),
            },
        }
    }
}

/// The recipient that an entry of a batch names.
pub open spec fn payee(payments: Payments, index: int) -> Key {
    match payments[index] {
        Some((to, _)) => to,
        None => Seq::empty(),
    }
}

/// The amount that an entry of a batch names.
pub open spec fn due(payments: Payments, index: int) -> i128 {
    match payments[index] {
        Some((_, amount)) => amount,
        None => 0,
    }
}

/// How many of the first `count` entries of a batch come before the first one that
/// names the pool at `me` as its recipient.
pub open spec fn clear_of(payments: Payments, me: Key, count: nat) -> nat
    decreases count,
{
    if count == 0 {
        0
    } else {
        let clear = clear_of(payments, me, (count - 1) as nat);
        if clear == count - 1 && payee(payments, count - 1) != me {
            count
        } else {
            clear
        }
    }
}

/// How many payments of a batch are made, when the token contract carries out the first
/// `willing` transfers and refuses the next.
pub open spec fn payable(payments: Payments, me: Key, willing: nat) -> nat {
    clear_of(
        payments,
        me,
        if willing < payments.len() {
            willing
        } else {
            payments.len()
        },
    )
}

/// The calls with which the first `count` payments of a batch are made: for each, a
/// transfer that the token carries out, and an event.
pub open spec fn paid(payments: Payments, me: Key, token: Key, count: nat) -> Seq<HostCall>
    decreases count,
{
    if count == 0 {
        Seq::empty()
    } else {
        let (to, amount) = (payee(payments, count - 1), due(payments, count - 1));
        paid(payments, me, token, (count - 1) as nat).push(
            HostCall::Transfer { token, from: me, to, amount, done: true },
        ).push(
            HostCall::Publish {
                name: BATCH_DISTRIBUTE_EVENT@,
                subject: to,
                data: EventData::Amount(amount),
            },
        )
    }
}

/// What paying out a batch comes to, when the token contract carries out the first
/// `willing` transfers and refuses the next: the outcome, and the calls.
pub open spec fn payout(payments: Payments, me: Key, token: Key, willing: nat) -> (
    Result<(), PoolError>,
    Seq<HostCall>,
) {
    let count = payable(payments, me, willing);
    let made = paid(payments, me, token, count);
    if count == payments.len() {
        (Ok(()), made)
    } else {
        let (to, amount) = (payee(payments, count as int), due(payments, count as int));
        if to == me {
            (Err(PoolError::RecipientIsContract), made)
        } else {
            (
                Err(PoolError::TokenFailed),
                made.push(HostCall::Transfer { token, from: me, to, amount, done: false }),
            )
        }
    }
}

/// What is tested before a `batch_distribute` turns to the token contract, in this order.
pub open spec fn batch_check(storage: Storage, caller: Key, payments: Payments) -> Result<
    i128,
    PoolError,
> {
    if let Err(error) = admin_check(admin_of(storage), caller) {
        Err(error)
    } else if batch_total(payments, payments.len()) is Err {
        batch_total(payments, payments.len())
    } else if token_of(storage) is None {
        Err(PoolError::NotInitialized)
    } else if let Err(error) = token_check(token_of(storage)->0) {
        Err(error)
    } else {
        batch_total(payments, payments.len())
    }
}

/// What `batch_distribute` does to the pool at `me`, when the token contract answers
/// with `holdings` for the pool's balance, carries out the first `willing` transfers
/// and refuses the next.
pub open spec fn batch_distribute_step(
    storage: Storage,
    me: Key,
    caller: Key,
    payments: Payments,
    holdings: BalanceReply,
    willing: nat,
) -> Step {
    let asked = seq![HostCall::Authorize { who: caller }];
    let token = token_of(storage)->0;
    let counted = asked.push(HostCall::Balance { token, holder: me, reply: holdings });
    match batch_check(storage, caller, payments) {
        Err(error) => refused(storage, asked, error),
        Ok(total) => if let Err(error) = funds_check(holdings, total) {
            refused(storage, counted, error)
        } else {
            let (outcome, made) = payout(payments, me, token, willing);
            Step { outcome, storage, calls: counted + made }
        },
    }
}

/// What `balance` returns for the pool at `me`, given the token contract's answer, and
/// the calls that it makes.
pub open spec fn balance_step(storage: Storage, me: Key, holdings: BalanceReply) -> (
    Result<i128, PoolError>,
    Seq<HostCall>,
) {
    match token_of(storage) {
        None => (Err(PoolError::NotInitialized), Seq::empty()),
        Some(token) => if let Err(error) = token_check(token) {
            (Err(error), Seq::empty())
        } else {
            (
                reported(holdings),
                seq![HostCall::Balance { token, holder: me, reply: holdings }],
            )
        },
    }
}

/// The storage keys and event names are symbols, and the storage keys differ.
pub proof fn lemma_names()
    ensures
        host::is_symbol(ADMIN_KEY@),
        host::is_symbol(PENDING_ADMIN_KEY@),
        host::is_symbol(USDC_KEY@),
        host::is_symbol(INIT_EVENT@),
        host::is_symbol(TRANSFER_STARTED_EVENT@),
        host::is_symbol(TRANSFER_COMPLETED_EVENT@),
        host::is_symbol(RECEIVE_PAYMENT_EVENT@),
        host::is_symbol(DISTRIBUTE_EVENT@),
        host::is_symbol(BATCH_DISTRIBUTE_EVENT@),
        ADMIN_KEY@ != PENDING_ADMIN_KEY@,
        ADMIN_KEY@ != USDC_KEY@,
        PENDING_ADMIN_KEY@ != USDC_KEY@,
{
    reveal_strlit("admin");
    reveal_strlit("pending_admin");
    reveal_strlit("usdc");
    reveal_strlit("init");
    reveal_strlit("admin_transfer_started");
    reveal_strlit("admin_transfer_completed");
    reveal_strlit("receive_payment");
    reveal_strlit("distribute");
    reveal_strlit("batch_distribute");
    assert(ADMIN_KEY@.len() == 5 && PENDING_ADMIN_KEY@.len() == 13 && USDC_KEY@.len() == 4);
}

/// What is wrong with an entry of a batch is wrong with every longer batch.
pub proof fn lemma_total_stops(payments: Payments, count: nat, longer: nat)
    requires
        count <= longer,
        batch_total(payments, count) is Err,
    ensures
        batch_total(payments, longer) == batch_total(payments, count),
    decreases longer,
{
    if count < longer {
        lemma_total_stops(payments, count, (longer - 1) as nat);
    }
}

/// Where the total of a batch can be counted, every entry counted is a payment of a
/// positive amount.
pub proof fn lemma_counted_entries(payments: Payments, count: nat, index: int)
    requires
        batch_total(payments, count) is Ok,
        0 <= index < count,
    ensures
        payments[index] is Some,
        due(payments, index) > 0,
    decreases count,
{
    if index < count - 1 {
        lemma_counted_entries(payments, (count - 1) as nat, index);
    }
}

/// Paying out goes no further than a payment to the pool itself.
pub proof fn lemma_clear_stops(payments: Payments, me: Key, index: nat, count: nat)
    requires
        index < count,
        clear_of(payments, me, index) == index,
        payee(payments, index as int) == me,
    ensures
        clear_of(payments, me, count) == index,
    decreases count,
{
    if index < count - 1 {
        lemma_clear_stops(payments, me, index, (count - 1) as nat);
    }
}

} // verus!
