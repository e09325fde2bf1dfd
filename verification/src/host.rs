//! The contract's window on the Soroban host.
//!
//! Everything here rests on `soroban_sdk`. The types of that crate are opaque to
//! the proofs; what the proofs know of them is what the items below say, in terms
//! of a few names:
//!
//! * `strkey` is the text that identifies an address;
//! * `call_stack`, `authorizations`, `instance` and `journal` are what an
//!   environment holds while an invocation runs;
//! * `payment_list` is what a host vector of payments holds.
//!
//! An environment is a handle to the host. It is passed along by reference and never
//! copied, so that what one handle is known to hold changes by the calls below alone.
//! The addresses and vectors that take part in an invocation belong to the same host.
//!
//! The host may end an invocation at any call, for instance when its budget is used up;
//! it then undoes all of it. The clauses below speak of calls that return.
use soroban_sdk::token::TokenClient;
use soroban_sdk::{Address, Env, Symbol, TryFromVal, Val, Vec};
use vstd::prelude::*;

verus! {

/// The environment of a running invocation.
#[verifier::external_type_specification]
#[verifier::external_body]
pub struct ExEnv(soroban_sdk::Env);

/// A handle to the address of an account or of a contract.
#[verifier::external_type_specification]
#[verifier::external_body]
pub struct ExAddress(soroban_sdk::Address);

/// A vector that lives in the host.
#[verifier::external_type_specification]
#[verifier::external_body]
#[verifier::reject_recursive_types(T)]
pub struct ExVec<T>(soroban_sdk::Vec<T>);

/// What the token contract answers when asked for a balance.
#[derive(Clone, Copy, Debug, PartialEq, Eq, Structural)]
pub enum BalanceReply {
    /// The balance.
    Amount(i128),
    /// The call went through, but what came back is not an amount.
    Unreadable,
    /// The call failed.
    Failed,
}

/// The data of a published event.
pub enum EventData {
    /// An address, by its strkey.
    Address(Seq<u8>),
    /// An amount.
    Amount(i128),
    /// An amount, and whether it came from the vault.
    Payment(i128, bool),
    /// Nothing.
    Empty,
}

/// A call that the contract made to the outside, with the answer where there is one.
/// Addresses are given by their strkeys.
pub enum HostCall {
    /// The contract asked the host to make sure that `who` authorized the invocation.
    Authorize { who: Seq<u8> },
    /// The contract asked `token` for the balance of `holder`.
    Balance { token: Seq<u8>, holder: Seq<u8>, reply: BalanceReply },
    /// The contract asked `token` to move `amount` from `from` to `to`. `done` says that
    /// the token reported it carried out: the call went through and gave back unit, as a
    /// transfer does. Where the call failed, the host has undone it. Where the token gave
    /// back something else, the amount may have moved all the same, though `done` is false;
    /// either way the contract refuses, and the host undoes the invocation.
    Transfer { token: Seq<u8>, from: Seq<u8>, to: Seq<u8>, amount: i128, done: bool },
    /// The contract published an event with the topics `name`, a symbol, and `subject`.
    Publish { name: Seq<char>, subject: Seq<u8>, data: EventData },
}

/// The strkey of an address: the text that `Address::to_string` gives.
pub uninterp spec fn strkey(address: Address) -> Seq<u8>;

/// The contracts that are being run, by their strkeys; the last is the running one.
pub uninterp spec fn call_stack(env: Env) -> Seq<Seq<u8>>;

/// The addresses whose authorization of the running call is there to be asked for.
pub uninterp spec fn authorizations(env: Env) -> Set<Seq<u8>>;

/// The entries of the running contract's instance storage that have a symbol for a
/// key, by the text of the symbol: the strkey of the address that is kept there, or
/// `None` where something other than an address is kept.
pub uninterp spec fn instance(env: Env) -> Map<Seq<char>, Option<Seq<u8>>>;

/// The calls that the running contract has made through this handle, in order.
pub uninterp spec fn journal(env: Env) -> Seq<HostCall>;

/// The entries of a vector of payments: the strkey of the recipient and the amount,
/// or `None` for an entry that is not such a pair.
pub uninterp spec fn payment_list(payments: Vec<(Address, i128)>) -> Seq<Option<(Seq<u8>, i128)>>;

/// The strkey of an address that may be missing.
pub open spec fn key_of(address: Option<Address>) -> Option<Seq<u8>> {
    match address {
        Some(address) => Some(strkey(address)),
        None => None,
    }
}

/// Whether a contract is being run.
pub open spec fn is_running(env: Env) -> bool {
    call_stack(env).len() > 0
}

/// The running contract.
pub open spec fn running(env: Env) -> Seq<u8> {
    call_stack(env).last()
}

/// The letter `C`, with which the strkey of a contract starts; that of an account starts
/// with `G`.
pub const CONTRACT_PREFIX: u8 = 67;

/// Whether a strkey is that of a contract.
pub open spec fn is_contract_key(key: Seq<u8>) -> bool {
    key.len() > 0 && key[0] == CONTRACT_PREFIX
}

/// Whether `text` can be a symbol: at most 32 characters out of `a-zA-Z0-9_`.
pub open spec fn is_symbol(text: Seq<char>) -> bool {
    &&& text.len() <= 32
    &&& forall|i: int| 0 <= i < text.len() ==> is_symbol_char(#[trigger] text[i])
}

/// Whether `c` may occur in a symbol.
pub open spec fn is_symbol_char(c: char) -> bool {
    'a' <= c <= 'z' || 'A' <= c <= 'Z' || '0' <= c <= '9' || c == '_'
}

/// `after` is `before` with one more call in the journal.
pub open spec fn called(before: Env, after: Env, call: HostCall) -> bool {
    &&& journal(after) == journal(before).push(call)
    &&& instance(after) == instance(before)
    &&& call_stack(after) == call_stack(before)
}

/// `after` is `before` with other contents of the instance storage.
pub open spec fn stored(before: Env, after: Env, entries: Map<Seq<char>, Option<Seq<u8>>>) -> bool {
    &&& instance(after) == entries
    &&& journal(after) == journal(before)
    &&& call_stack(after) == call_stack(before)
}

/// `Address::eq`: two handles are equal exactly when they stand for the same account
/// or contract. A strkey spells out the kind and the bytes of an address, so that is when
/// their strkeys are the same.
#[verifier::external_body]
pub(crate) fn same_address(left: &Address, right: &Address) -> (same: bool)
    ensures
        same == (strkey(*left) == strkey(*right)),
{
    left == right
}

/// `Address::to_string`, copied out of the host: the strkey of an address, which
/// has 56 characters for an account and for a contract.
#[verifier::external_body]
pub(crate) fn address_text(address: &Address) -> (text: [u8; 56])
    ensures
        text@ == strkey(*address),
{
    let mut text = [0u8; 56];
    address.to_string().copy_into_slice(&mut text);
    text
}

/// `Address::require_auth`: returns when the invocation carries the authorization of
/// `who`, and stops the invocation otherwise. Whether it can be asked for a second
/// time is left open: all that is said of what remains is that nothing is added.
#[verifier::external_body]
pub(crate) fn require_auth(env: &mut Env, who: &Address)
    requires
        is_running(*old(env)),
        authorizations(*old(env)).contains(strkey(*who)),
    ensures
        journal(*final(env)) == journal(*old(env)).push(
            (HostCall::Authorize { who: strkey(*who) }),
        ),
        instance(*final(env)) == instance(*old(env)),
        call_stack(*final(env)) == call_stack(*old(env)),
        authorizations(*final(env)).subset_of(authorizations(*old(env))),
{
    who.require_auth();
}

/// `Env::current_contract_address`: the address of the running contract.
#[verifier::external_body]
pub(crate) fn current_contract(env: &Env) -> (address: Address)
    requires
        is_running(*env),
    ensures
        strkey(address) == running(*env),
{
    env.current_contract_address()
}

/// `Instance::has`: whether the instance storage has an entry under the symbol `key`.
#[verifier::external_body]
pub(crate) fn storage_has(env: &Env, key: &str) -> (found: bool)
    requires
        is_running(*env),
        is_symbol(key@),
    ensures
        found == instance(*env).contains_key(key@),
{
    env.storage().instance().has(&Symbol::new(env, key))
}

/// `Instance::get`, and the conversion of what it finds to an address: the address
/// that is kept under the symbol `key`, if there is one.
#[verifier::external_body]
pub(crate) fn storage_get(env: &Env, key: &str) -> (found: Option<Address>)
    requires
        is_running(*env),
        is_symbol(key@),
    ensures
        match found {
            Some(address) => instance(*env).contains_key(key@) && instance(*env)[key@] == Some(
                strkey(address),
            ),
            None => instance(*env).contains_key(key@) ==> instance(*env)[key@] is None,
        },
{
    match env.storage().instance().get::<Symbol, Val>(&Symbol::new(env, key)) {
        Some(value) => Address::try_from_val(env, &value).ok(),
        None => None,
    }
}

/// `Instance::set`: keeps `value` under the symbol `key`, in place of what was there.
#[verifier::external_body]
pub(crate) fn storage_set(env: &mut Env, key: &str, value: &Address)
    requires
        is_running(*old(env)),
        is_symbol(key@),
    ensures
        stored(
            *old(env),
            *final(env),
            instance(*old(env)).insert(key@, Some(strkey(*value))),
        ),
{
    env.storage().instance().set(&Symbol::new(env, key), value);
}

/// `Instance::remove`: drops the entry under the symbol `key`.
#[verifier::external_body]
pub(crate) fn storage_remove(env: &mut Env, key: &str)
    requires
        is_running(*old(env)),
        is_symbol(key@),
    ensures
        stored(*old(env), *final(env), instance(*old(env)).remove(key@)),
{
    env.storage().instance().remove(&Symbol::new(env, key));
}

/// `TokenClient::try_balance`: asks the contract `token` for the balance of `holder`.
/// What it answers is up to that contract; only the request is said, and that the
/// answer is put down with it. The host lets no contract run again that is on the call
/// stack, so the running contract's storage stays as it is.
#[verifier::external_body]
pub(crate) fn token_balance(env: &mut Env, token: &Address, holder: &Address) -> (reply: BalanceReply)
    requires
        is_running(*old(env)),
        is_contract_key(strkey(*token)),
    ensures
        called(
            *old(env),
            *final(env),
            (HostCall::Balance { token: strkey(*token), holder: strkey(*holder), reply }),
        ),
{
    match TokenClient::new(env, token).try_balance(holder) {
        Ok(Ok(amount)) => BalanceReply::Amount(amount),
        Ok(Err(_)) => BalanceReply::Unreadable,
        Err(_) => BalanceReply::Failed,
    }
}

/// `TokenClient::try_transfer`: asks the contract `token` to move `amount` from `from`
/// to `to`. Whether it does is up to that contract; only the request is said, and that
/// the answer is put down with it: `done` is true when the call went through and gave back
/// unit, and false when it failed or gave back anything else. The running contract's
/// storage stays as it is.
#[verifier::external_body]
pub(crate) fn token_transfer(
    env: &mut Env,
    token: &Address,
    from: &Address,
    to: &Address,
    amount: i128,
) -> (done: bool)
    requires
        is_running(*old(env)),
        is_contract_key(strkey(*token)),
    ensures
        called(
            *old(env),
            *final(env),
            (HostCall::Transfer {
                token: strkey(*token),
                from: strkey(*from),
                to: strkey(*to),
                amount,
                done,
            }),
        ),
{
    matches!(TokenClient::new(env, token).try_transfer(from, to, &amount), Ok(Ok(())))
}

/// `Events::publish` with the topics `name` and `subject` and an address as its data.
#[verifier::external_body]
#[allow(deprecated)]
pub(crate) fn publish_address(env: &mut Env, name: &str, subject: &Address, data: &Address)
    requires
        is_running(*old(env)),
        is_symbol(name@),
    ensures
        called(
            *old(env),
            *final(env),
            (HostCall::Publish {
                name: name@,
                subject: strkey(*subject),
                data: EventData::Address(strkey(*data)),
            }),
        ),
{
    env.events().publish((Symbol::new(env, name), subject), data);
}

/// `Events::publish` with the topics `name` and `subject` and an amount as its data.
#[verifier::external_body]
#[allow(deprecated)]
pub(crate) fn publish_amount(env: &mut Env, name: &str, subject: &Address, data: i128)
    requires
        is_running(*old(env)),
        is_symbol(name@),
    ensures
        called(
            *old(env),
            *final(env),
            (HostCall::Publish {
                name: name@,
                subject: strkey(*subject),
                data: EventData::Amount(data),
            }),
        ),
{
    env.events().publish((Symbol::new(env, name), subject), data);
}

/// `Events::publish` with the topics `name` and `subject` and a pair of an amount and
/// a flag as its data.
#[verifier::external_body]
#[allow(deprecated)]
pub(crate) fn publish_payment(
    env: &mut Env,
    name: &str,
    subject: &Address,
    amount: i128,
    from_vault: bool,
)
    requires
        is_running(*old(env)),
        is_symbol(name@),
    ensures
        called(
            *old(env),
            *final(env),
            (HostCall::Publish {
                name: name@,
                subject: strkey(*subject),
                data: EventData::Payment(amount, from_vault),
            }),
        ),
{
    env.events().publish((Symbol::new(env, name), subject), (amount, from_vault));
}

/// `Events::publish` with the topics `name` and `subject` and no data.
#[verifier::external_body]
#[allow(deprecated)]
pub(crate) fn publish_empty(env: &mut Env, name: &str, subject: &Address)
    requires
        is_running(*old(env)),
        is_symbol(name@),
    ensures
        called(
            *old(env),
            *final(env),
            (HostCall::Publish { name: name@, subject: strkey(*subject), data: EventData::Empty }),
        ),
{
    env.events().publish((Symbol::new(env, name), subject), ());
}

/// `Vec::len`: the number of entries.
#[verifier::external_body]
pub(crate) fn payments_len(payments: &Vec<(Address, i128)>) -> (len: u32)
    ensures
        len == payment_list(*payments).len(),
{
    payments.len()
}

/// `Vec::get_unchecked`, and the conversion of what it finds to a recipient and an
/// amount: an entry of the vector, or `None` if it is not such a pair.
#[verifier::external_body]
pub(crate) fn payment_at(payments: &Vec<(Address, i128)>, index: u32) -> (payment: Option<(Address, i128)>)
    requires
        index < payment_list(*payments).len(),
    ensures
        match payment {
            Some((to, amount)) => payment_list(*payments)[index as int] == Some(
                (strkey(to), amount),
            ),
            None => payment_list(*payments)[index as int] is None,
        },
{
    let env = payments.env();
    let entry: Val = payments.to_vals().get_unchecked(index);
    let parts: Vec<Val> = Vec::try_from_val(env, &entry).ok()?;
    let parts: std::vec::Vec<Val> = parts.iter().collect();
    let [to, amount]: [Val; 2] = parts.try_into().ok()?;
    let to = Address::try_from_val(env, &to).ok()?;
    let amount = i128::try_from_val(env, &amount).ok()?;
    Some((to, amount))
}

} // verus!
