//! The reasons for which a call to the pool is refused.
use vstd::prelude::*;

verus! {

/// Why the pool refused a call.
///
/// A refused call must be aborted: whoever gets one of these ends the host
/// invocation, and the host then undoes everything the call did.
#[derive(Clone, Copy, Debug, PartialEq, Eq, Structural)]
pub enum PoolError {
    /// `init` was called on a pool that has an admin already.
    AlreadyInitialized,
    /// The pool has no admin, or no token, yet.
    NotInitialized,
    /// `init` was given the pool's own address as the token.
    TokenIsContract,
    /// `init` was given the admin's address as the token.
    TokenIsAdmin,
    /// The caller is not the admin.
    Unauthorized,
    /// `claim_admin` was called while no transfer of the admin role is under way.
    NoPendingAdmin,
    /// The caller is not the address that the admin role was offered to.
    NotPendingAdmin,
    /// An amount is zero or negative.
    AmountNotPositive,
    /// The amounts of a batch add up to more than an `i128` holds.
    TotalOverflow,
    /// An entry of a batch is not a pair of an address and an amount.
    MalformedPayment,
    /// A payment names the pool itself as its recipient.
    RecipientIsContract,
    /// The token contract cannot tell the recipient's balance.
    UnknownRecipient,
    /// The pool holds less than what is to be paid out.
    InsufficientBalance,
    /// The address kept as the token is an account and cannot be called.
    TokenNotContract,
    /// The token contract failed, or gave an answer of the wrong type.
    TokenFailed,
}

impl PoolError {
    /// The text that stands for this error.
    pub open spec fn text(self) -> Seq<char> {
        match self {
            PoolError::AlreadyInitialized => "revenue pool already initialized"@,
            PoolError::NotInitialized => "revenue pool not initialized"@,
            PoolError::TokenIsContract => "invalid config: usdc_token cannot be the contract itself"@,
            PoolError::TokenIsAdmin => "invalid config: usdc_token cannot be the admin address"@,
            PoolError::Unauthorized => "unauthorized: caller is not admin"@,
            PoolError::NoPendingAdmin => "no pending admin"@,
            PoolError::NotPendingAdmin => "unauthorized: caller is not pending admin"@,
            PoolError::AmountNotPositive => "amount must be positive"@,
            PoolError::TotalOverflow => "total overflow"@,
            PoolError::MalformedPayment => "malformed payment"@,
            PoolError::RecipientIsContract => "invalid recipient: cannot distribute to the contract itself"@,
            PoolError::UnknownRecipient => "invalid recipient: account does not exist or has no USDC trustline"@,
            PoolError::InsufficientBalance => "insufficient USDC balance"@,
            PoolError::TokenNotContract => "usdc_token is not a contract"@,
            PoolError::TokenFailed => "USDC token call failed"@,
        }
    }

    /// The message with which a refused call is aborted.
    pub fn message(&self) -> (message: &'static str)
        ensures
            message@ == self.text(),
    {
        match self {
            PoolError::AlreadyInitialized => "revenue pool already initialized",
            PoolError::NotInitialized => "revenue pool not initialized",
            PoolError::TokenIsContract => "invalid config: usdc_token cannot be the contract itself",
            PoolError::TokenIsAdmin => "invalid config: usdc_token cannot be the admin address",
            PoolError::Unauthorized => "unauthorized: caller is not admin",
            PoolError::NoPendingAdmin => "no pending admin",
            PoolError::NotPendingAdmin => "unauthorized: caller is not pending admin",
            PoolError::AmountNotPositive => "amount must be positive",
            PoolError::TotalOverflow => "total overflow",
            PoolError::MalformedPayment => "malformed payment",
            PoolError::RecipientIsContract => "invalid recipient: cannot distribute to the contract itself",
            PoolError::UnknownRecipient => "invalid recipient: account does not exist or has no USDC trustline",
            PoolError::InsufficientBalance => "insufficient USDC balance",
            PoolError::TokenNotContract => "usdc_token is not a contract",
            PoolError::TokenFailed => "USDC token call failed",
        }
    }
}

} // verus!
