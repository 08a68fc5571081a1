//! The market's records: assets, orders, bids, stakes, configuration,
//! notifications, and the per-stake settlement report.

use vstd::prelude::*;

verus! {

/// A listing of one asset for auction: ascending bids between a floor
/// (`start_price`) and an instant-buy ceiling (`end_price`), open for
/// `keep_block_num` time units from `create_block`.
#[derive(Clone, Copy, Debug, PartialEq, Eq, Structural)]
pub struct Order {
    pub order_id: u64,
    pub start_price: u64,
    pub end_price: u64,
    pub nft_id: u64,
    pub create_block: u64,
    pub keep_block_num: u64,
    pub owner: u64,
}

/// The single currently-winning offer on an open order. The bidder's funds
/// are reserved in the ledger for exactly `price` while the bid is live.
#[derive(Clone, Copy, Debug, PartialEq, Eq, Structural)]
pub struct Bid {
    pub order_id: u64,
    pub price: u64,
    pub owner: u64,
}

/// Third-party capital locked against an open order. `keep_block_num`
/// records how much of the order's window remained when the stake was
/// placed; it weights the stake in the settlement reward curve.
#[derive(Clone, Copy, Debug, PartialEq, Eq, Structural)]
pub struct Vote {
    pub order_id: u64,
    pub amount: u64,
    pub keep_block_num: u64,
    pub owner: u64,
}

/// An asset record: its payload and its current owner.
#[derive(Clone, Debug, PartialEq, Eq)]
pub struct NftRecord {
    pub url: Vec<u8>,
    pub owner: u64,
}

/// Deployment-time constants. Rates are fixed-point raw bits with 64
/// fractional bits (see `fixed_point`).
#[derive(Clone, Copy, Debug)]
pub struct Config {
    /// Shortest admissible order window.
    pub min_keep_block_num: u64,
    /// Longest admissible order window.
    pub max_keep_block_num: u64,
    /// Global minimum for an order's floor price.
    pub minimum_price: u64,
    /// Smallest admissible stake amount.
    pub minimum_voting_lock: u64,
    /// Floor annual rate: once a stake's annualized rate would drop under
    /// it, the exchange rate freezes (fixed-point raw bits).
    pub fix_rate: u128,
    /// Annual profit-rate fraction of the sale price (fixed-point raw bits).
    pub profit_rate: u128,
    /// Time units per day.
    pub day_block_num: u64,
}

impl Config {
    /// Sanity of the deployment constants: a positive day length, a
    /// positive duration window, and a positive stake minimum.
    pub open spec fn wf(&self) -> bool {
        &&& 1 <= self.min_keep_block_num <= self.max_keep_block_num
        &&& self.day_block_num >= 1
        &&& self.minimum_voting_lock >= 1
    }
}

/// Runtime check of `Config::wf`, for callers outside the proved world.
pub fn config_ok(cfg: &Config) -> (r: bool)
    ensures
        r == cfg.wf(),
{
    cfg.min_keep_block_num >= 1 && cfg.min_keep_block_num <= cfg.max_keep_block_num
        && cfg.day_block_num >= 1 && cfg.minimum_voting_lock >= 1
}

/// One line of the settlement report: the stake, its time weight, the
/// exchange rate it was converted at, its annualized rate, and the credit
/// it earned (all but `amount` are fixed-point raw bits).
#[derive(Clone, Copy, Debug, PartialEq, Eq, Structural)]
pub struct YieldRecord {
    pub amount: u64,
    pub stake_days: u128,
    pub exchange_rate: u128,
    pub annual_rate: u128,
    pub credit: u128,
    pub running_credit: u128,
}

/// A notification, appended to the market's event log by each successful
/// operation that the outside world should hear about.
#[derive(Clone, Debug, PartialEq, Eq, Structural)]
pub enum Event {
    NftCreated(u64, u64),
    NftRemove(u64, u64),
    NftTransfer(u64, u64, u64),
    OrderSell(u64, Order),
    OrderBuy(u64, Bid),
    /// Winner, order id, and clearing price.
    OrderComplete(u64, u64, u64),
    /// Seller and order id.
    OrderCancel(u64, u64),
}

/// What a successful bid did: joined the auction, or cleared it instantly
/// at the ceiling price (carrying the settlement report).
#[derive(Clone, Debug, PartialEq, Eq)]
pub enum BuyOutcome {
    Accepted,
    InstantBuy(Vec<YieldRecord>),
}

/// How a settlement ended: completed at a clearing price (carrying the
/// settlement report), or cancelled for want of a bid.
#[derive(Clone, Debug, PartialEq, Eq)]
pub enum SettleOutcome {
    Completed(Vec<YieldRecord>),
    Cancelled,
}

} // verus!
