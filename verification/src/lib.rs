//! An on-ledger auction market for uniquely identified digital assets.
//!
//! Assets are listed for ascending-price auction with an instant-buy
//! ceiling and a time-boxed expiry window; third parties may stake capital
//! against an open auction and, at settlement, a diminishing-rate
//! profit-sharing curve over the sale proceeds is computed for them.

pub mod allocator;
pub mod errors;
pub mod funds;
pub mod kv;
pub mod ledger;
pub mod market;
pub mod fixed_point;
pub mod types;

pub use errors::Error;
pub use market::Module;
pub use types::{Bid, BuyOutcome, Config, Event, NftRecord, Order, SettleOutcome, Vote, YieldRecord};
