use nft_auction::market::Module;
use nft_auction::types::{BuyOutcome, Config, Event, SettleOutcome};
use nft_auction::Error;

fn test_config() -> Config {
    Config {
        min_keep_block_num: 1,
        max_keep_block_num: 1000,
        minimum_price: 1,
        minimum_voting_lock: 5,
        fix_rate: 1u128 << 60,
        profit_rate: 1u128 << 62,
        day_block_num: 10,
    }
}

fn market_with_listing() -> Module {
    // seller 1 lists asset 0 at floor 100 / ceiling 200, open 200 units
    // from time 10; bidders 2 and 3 hold 1000 each
    let mut m = Module::new(test_config());
    m.deposit(2, 1000).unwrap();
    m.deposit(3, 1000).unwrap();
    m.create(1, "asset".into()).unwrap();
    m.order_sell(1, 0, 100, 200, 200, 10).unwrap();
    m
}

#[test]
fn bid_then_ceiling_bid_completes_instantly() {
    // ascending bid, then a ceiling bid: the first bidder is refunded in
    // full, the buyer pays the ceiling price, and the asset changes hands
    let mut m = market_with_listing();
    assert_eq!(m.order_buy(2, 0, 150, 20), Ok(BuyOutcome::Accepted));
    assert_eq!(m.reserved_balance(2), 150);
    assert_eq!(m.free_balance(2), 850);

    let r = m.order_buy(3, 0, 200, 30);
    match r {
        Ok(BuyOutcome::InstantBuy(report)) => assert_eq!(report.len(), 0),
        other => panic!("expected instant buy, got {:?}", other),
    }
    assert_eq!(m.reserved_balance(2), 0);
    assert_eq!(m.free_balance(2), 1000);
    assert_eq!(m.free_balance(3), 800);
    assert_eq!(m.free_balance(1), 200);
    assert_eq!(m.nft_account(0), Some(3));
    assert!(m.order(0).is_none());
    assert!(m.bid(0).is_none());
    assert!(m.events().contains(&Event::OrderComplete(3, 0, 200)));
}

#[test]
fn expiry_without_bids_cancels() {
    // no bids: after expiry, settlement cancels, the seller keeps the
    // asset, and no payment happens
    let mut m = market_with_listing();
    assert_eq!(m.order_settlement(5, 0, 211), Ok(SettleOutcome::Cancelled));
    assert!(m.order(0).is_none());
    assert!(m.order_of_nft(0).is_none());
    assert_eq!(m.nft_account(0), Some(1));
    assert_eq!(m.free_balance(1), 0);
    assert!(m.events().contains(&Event::OrderCancel(1, 0)));
}

#[test]
fn settle_before_expiry_is_too_early() {
    let mut m = market_with_listing();
    // elapsed == duration is not yet expired
    assert_eq!(m.order_settlement(5, 0, 210), Err(Error::TooEarly));
    assert!(m.order(0).is_some());
}

#[test]
fn settle_with_live_bid_completes_at_bid_price() {
    let mut m = market_with_listing();
    assert_eq!(m.order_buy(2, 0, 150, 20), Ok(BuyOutcome::Accepted));
    let r = m.order_settlement(5, 0, 211);
    match r {
        Ok(SettleOutcome::Completed(report)) => assert_eq!(report.len(), 0),
        other => panic!("expected completion, got {:?}", other),
    }
    assert_eq!(m.nft_account(0), Some(2));
    assert_eq!(m.free_balance(2), 850);
    assert_eq!(m.reserved_balance(2), 0);
    assert_eq!(m.free_balance(1), 150);
    assert!(m.events().contains(&Event::OrderComplete(2, 0, 150)));
}

#[test]
fn settlement_is_not_reexecutable() {
    // once settled, the order is gone: a second settlement fails NotFound
    let mut m = market_with_listing();
    assert_eq!(m.order_settlement(5, 0, 211), Ok(SettleOutcome::Cancelled));
    assert_eq!(m.order_settlement(5, 0, 212), Err(Error::NotFound));
}

#[test]
fn sell_duration_out_of_bounds() {
    let mut m = Module::new(test_config());
    m.create(1, "asset".into()).unwrap();
    assert_eq!(m.order_sell(1, 0, 100, 200, 1001, 10), Err(Error::DurationOutOfBounds));
    assert_eq!(m.order_sell(1, 0, 100, 200, 0, 10), Err(Error::DurationOutOfBounds));
    assert!(m.order(0).is_none());
}

#[test]
fn sell_price_checks() {
    let mut m = Module::new(test_config());
    m.create(1, "asset".into()).unwrap();
    // floor under the global minimum
    assert_eq!(m.order_sell(1, 0, 0, 200, 200, 10), Err(Error::PriceBelowFloor));
    // floor over ceiling
    assert_eq!(m.order_sell(1, 0, 200, 100, 200, 10), Err(Error::InvalidPriceRange));
    assert!(m.order(0).is_none());
    assert!(m.order_of_nft(0).is_none());
}

#[test]
fn buy_price_checks() {
    let mut m = market_with_listing();
    assert_eq!(m.order_buy(2, 0, 50, 20), Err(Error::PriceBelowFloor));
    assert_eq!(m.order_buy(2, 0, 150, 20), Ok(BuyOutcome::Accepted));
    // a bid equal to the live one is rejected: strict increase required
    assert_eq!(m.order_buy(3, 0, 150, 21), Err(Error::PriceNotIncreasing));
    assert_eq!(m.order_buy(3, 0, 149, 21), Err(Error::PriceNotIncreasing));
    // the prior bid stays locked, exactly once
    assert_eq!(m.reserved_balance(2), 150);
}

#[test]
fn buy_after_expiry_is_too_late() {
    let mut m = market_with_listing();
    assert_eq!(m.order_buy(2, 0, 150, 211), Err(Error::TooLate));
}

#[test]
fn buy_unknown_order_not_found() {
    let mut m = market_with_listing();
    assert_eq!(m.order_buy(2, 7, 150, 20), Err(Error::NotFound));
}

#[test]
fn buy_without_funds_is_insufficient() {
    let mut m = market_with_listing();
    assert_eq!(m.order_buy(9, 0, 150, 20), Err(Error::InsufficientFunds));
    assert!(m.bid(0).is_none());
}

#[test]
fn bid_replacement_swaps_locked_funds_atomically() {
    // at every point the outstanding lock equals exactly the live bid's
    // price, never the sum of the old and the new
    let mut m = market_with_listing();
    assert_eq!(m.order_buy(2, 0, 120, 20), Ok(BuyOutcome::Accepted));
    assert_eq!(m.reserved_balance(2), 120);
    assert_eq!(m.order_buy(3, 0, 130, 21), Ok(BuyOutcome::Accepted));
    assert_eq!(m.reserved_balance(2), 0);
    assert_eq!(m.free_balance(2), 1000);
    assert_eq!(m.reserved_balance(3), 130);
    // a bidder outbidding themselves releases their own prior lock
    assert_eq!(m.order_buy(3, 0, 140, 22), Ok(BuyOutcome::Accepted));
    assert_eq!(m.reserved_balance(3), 140);
    assert_eq!(m.free_balance(3), 860);
}

#[test]
fn stake_checks_and_refund_conservation() {
    let mut m = market_with_listing();
    m.deposit(7, 500).unwrap();
    m.deposit(8, 500).unwrap();
    assert_eq!(m.vote_order(7, 9, 100, 20), Err(Error::NotFound));
    assert_eq!(m.vote_order(7, 0, 4, 20), Err(Error::StakeTooLow));
    // a stake of exactly the minimum is accepted
    assert!(m.vote_order(7, 0, 5, 20).is_ok());
    assert!(m.vote_order(7, 0, 100, 30).is_ok());
    assert!(m.vote_order(8, 0, 200, 40).is_ok());
    assert_eq!(m.vote_order(8, 0, 100, 211), Err(Error::TooLate));
    assert_eq!(m.reserved_balance(7), 105);
    assert_eq!(m.reserved_balance(8), 200);
    // cancellation refunds every staker's exact principal, once
    assert_eq!(m.order_settlement(5, 0, 211), Ok(SettleOutcome::Cancelled));
    assert_eq!(m.reserved_balance(7), 0);
    assert_eq!(m.free_balance(7), 500);
    assert_eq!(m.reserved_balance(8), 0);
    assert_eq!(m.free_balance(8), 500);
    assert_eq!(m.votes_of(0).len(), 0);
}

#[test]
fn id_exhaustion_is_counter_overflow() {
    let mut m = Module::new(test_config());
    m.next_nft_id = u64::MAX;
    assert_eq!(m.create(1, "a".into()), Err(Error::CounterOverflow));
    let mut m2 = Module::new(test_config());
    m2.create(1, "a".into()).unwrap();
    m2.next_order_id = u64::MAX;
    assert_eq!(m2.order_sell(1, 0, 100, 200, 200, 10), Err(Error::CounterOverflow));
    assert!(m2.order_of_nft(0).is_none());
}

#[test]
fn stake_near_end_of_time_overflows() {
    // an order created so late that creation time plus duration leaves
    // the clock's range: the remaining-window subtraction is checked
    let mut m = Module::new(test_config());
    m.deposit(7, 500).unwrap();
    m.create(1, "a".into()).unwrap();
    let create = u64::MAX - 50;
    m.order_sell(1, 0, 100, 200, 200, create).unwrap();
    assert_eq!(m.vote_order(7, 0, 100, create), Err(Error::ArithmeticOverflow));
}

#[test]
fn deposit_overflow_is_checked() {
    let mut m = Module::new(test_config());
    m.deposit(1, u64::MAX).unwrap();
    assert_eq!(m.deposit(1, 1), Err(Error::ArithmeticOverflow));
    assert_eq!(m.free_balance(1), u64::MAX);
}
