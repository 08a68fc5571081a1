//! The error taxonomy of the market: every operation either applies in full
//! or fails with one of these and changes nothing.

use vstd::prelude::*;

verus! {

/// Why an operation was rejected. No error is fatal: each one is a rejected
/// transaction, detected before any state is mutated.
#[derive(Clone, Copy, Debug, PartialEq, Eq, Structural)]
pub enum Error {
    /// The referenced asset or order id is unknown.
    NotFound,
    /// The caller does not own the referenced asset.
    NotOwner,
    /// The asset already has a live order.
    AlreadyListed,
    /// The floor price exceeds the ceiling price.
    InvalidPriceRange,
    /// The price is under the required floor.
    PriceBelowFloor,
    /// The offered bid does not strictly exceed the live bid.
    PriceNotIncreasing,
    /// The requested duration lies outside the configured bounds.
    DurationOutOfBounds,
    /// The stake amount is under the configured minimum.
    StakeTooLow,
    /// Settlement was attempted before the order's window elapsed.
    TooEarly,
    /// A bid or stake was attempted after the order's window elapsed.
    TooLate,
    /// The id space is exhausted.
    CounterOverflow,
    /// A checked arithmetic step overflowed or underflowed.
    ArithmeticOverflow,
    /// The ledger rejected a reservation or transfer.
    InsufficientFunds,
}

} // verus!
