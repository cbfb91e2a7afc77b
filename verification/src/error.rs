//! The outcomes that an operation reports instead of its effect.

use vstd::prelude::*;

verus! {

/// Why an operation did not take place. Every variant but `Unexpected` is a
/// business outcome that a front-end shows to the user; `Unexpected` is a
/// fault of the store itself, such as an amount it cannot hold.
#[derive(Debug, Clone, Copy, PartialEq, Eq, Structural)]
pub enum ModelError {
    /// The user has no account.
    NotFound(u64),
    /// The user already has an account.
    AlreadyExists(u64),
    /// A transfer, trade or wager size was not strictly positive.
    InvalidAmount,
    /// A value other than an amount was not one of those allowed.
    InvalidValue,
    /// The fiat balance does not cover the debit.
    InsufficientFunds,
    /// The coin holding does not cover the sale.
    InsufficientCoins,
    /// The price source knows no such coin.
    UnknownSymbol,
    /// The price source could not be reached or understood.
    Unavailable,
    /// The store could not carry out the operation.
    Unexpected,
}

} // verus!
