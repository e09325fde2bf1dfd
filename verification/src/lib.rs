//! A revenue pool for Soroban: a contract that holds USDC and pays it out to developers
//! when its admin says so.
//!
//! * [`pool`] is the contract: its functions, each proved to follow a step of the model.
//! * [`model`] says what those steps are.
//! * [`promises`] says of each function what it does with what it is given.
//! * [`laws`] says what holds of all of them together.
//! * [`balances`] says what they do to the balances of each address.
//! * [`rules`] decides on single questions, over values at hand.
//! * [`host`] is where the host is called, and says what is taken for granted of it.
//! * [`errors`] lists the reasons for which a call is refused.
pub mod balances;
pub mod errors;
pub mod host;
pub mod laws;
pub mod model;
pub mod pool;
pub mod promises;
pub mod rules;

pub use errors::PoolError;
pub use host::BalanceReply;
pub use pool::RevenuePool;
