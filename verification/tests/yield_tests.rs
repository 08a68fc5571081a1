use nft_auction::market::Module;
use nft_auction::types::{BuyOutcome, Config, Order, SettleOutcome, Vote, YieldRecord};
use nft_auction::Error;
use substrate_fixed::types::U64F64;

const FX: u128 = 1u128 << 64;

fn curve_config(fix_rate: u128) -> Config {
    // day length 10, profit rate 0.25 per year
    Config {
        min_keep_block_num: 1,
        max_keep_block_num: 1000,
        minimum_price: 1,
        minimum_voting_lock: 5,
        fix_rate,
        profit_rate: 1u128 << 62,
        day_block_num: 10,
    }
}

fn sample_order() -> Order {
    Order {
        order_id: 0,
        start_price: 100,
        end_price: 1000,
        nft_id: 0,
        create_block: 0,
        keep_block_num: 100,
        owner: 1,
    }
}

fn sample_votes() -> Vec<Vote> {
    vec![
        Vote { order_id: 0, amount: 1000, keep_block_num: 100, owner: 4 },
        Vote { order_id: 0, amount: 1000, keep_block_num: 50, owner: 5 },
    ]
}

#[test]
fn yield_curve_regression_baseline() {
    // list(floor=100, ceiling=1000, duration=100, day-length=10), stakes
    // (1000, remaining 100) then (1000, remaining 50), cleared at 500:
    // rewardPool = 500 * 0.25 / 10 * 365 = 4562.5, and the two exchange
    // rates are 4562.5/5562.5 and 4562.5/6062.5, truncated fixed-point
    let mut m = Module::new(curve_config(1u128 << 60));
    m.deposit(4, 2000).unwrap();
    m.deposit(5, 2000).unwrap();
    m.deposit(6, 1000).unwrap();
    m.create(1, "asset".into()).unwrap();
    m.order_sell(1, 0, 100, 1000, 100, 0).unwrap();
    assert!(m.vote_order(4, 0, 1000, 0).is_ok());
    assert!(m.vote_order(5, 0, 1000, 50).is_ok());
    assert_eq!(m.order_buy(6, 0, 500, 60), Ok(BuyOutcome::Accepted));

    let r = m.order_settlement(9, 0, 101);
    let report = match r {
        Ok(SettleOutcome::Completed(report)) => report,
        other => panic!("expected completion, got {:?}", other),
    };
    let expected = vec![
        YieldRecord {
            amount: 1000,
            stake_days: 10 * FX,
            exchange_rate: 15130475476188733347,
            annual_rate: 84163269836299829248,
            credit: 15130475476188733347000,
            running_credit: 15130475476188733347000,
        },
        YieldRecord {
            amount: 1000,
            stake_days: 5 * FX,
            exchange_rate: 13882601210111312040,
            annual_rate: 52936614950040175282,
            credit: 6941300605055656020000,
            running_credit: 22071776081244389367000,
        },
    ];
    assert_eq!(report, expected);
    // the rate diminishes while unfrozen
    assert!(report[1].exchange_rate < report[0].exchange_rate);
    // stakers get back exactly their principal; the winner paid 500
    assert_eq!(m.free_balance(4), 2000);
    assert_eq!(m.reserved_balance(4), 0);
    assert_eq!(m.free_balance(5), 2000);
    assert_eq!(m.reserved_balance(5), 0);
    assert_eq!(m.free_balance(6), 500);
    assert_eq!(m.free_balance(1), 500);
    assert_eq!(m.nft_account(0), Some(6));
}

#[test]
fn yield_curve_freezes_under_floor_rate() {
    // with a floor annual rate of 10.0, the first stake's annualized rate
    // (4.5625) already falls under it: the exchange rate freezes and the
    // second stake is converted at the first stake's rate
    let m = Module::new(curve_config(10 * FX));
    let report = m.algorithm(&sample_order(), 500, &sample_votes()).unwrap();
    assert_eq!(report.len(), 2);
    assert_eq!(report[0].exchange_rate, 15130475476188733347);
    assert_eq!(report[0].annual_rate, 84163269836299829248);
    assert_eq!(report[1].exchange_rate, report[0].exchange_rate);
    assert_eq!(report[1].credit, 7565237738094366673500);
    assert_eq!(report[1].running_credit, 22695713214283100020500);
}

#[test]
fn zero_price_auction_yields_zero_rates() {
    // a degenerate auction cleared at 0 is legal: the reward pool is 0
    // and every rate and credit is 0
    let m = Module::new(curve_config(1u128 << 60));
    let votes = vec![Vote { order_id: 0, amount: 1000, keep_block_num: 100, owner: 4 }];
    let report = m.algorithm(&sample_order(), 0, &votes).unwrap();
    assert_eq!(report.len(), 1);
    assert_eq!(report[0].exchange_rate, 0);
    assert_eq!(report[0].annual_rate, 0);
    assert_eq!(report[0].credit, 0);
    assert_eq!(report[0].running_credit, 0);
    assert_eq!(report[0].stake_days, 10 * FX);
}

#[test]
fn zero_weight_stake_is_rejected() {
    // a stake whose remaining window was 0 has zero weight: the allocator
    // refuses to silently skip it
    let m = Module::new(curve_config(1u128 << 60));
    let votes = vec![Vote { order_id: 0, amount: 1000, keep_block_num: 0, owner: 4 }];
    assert_eq!(m.algorithm(&sample_order(), 500, &votes), Err(Error::ArithmeticOverflow));
}

#[test]
fn empty_stake_list_yields_empty_report() {
    let m = Module::new(curve_config(1u128 << 60));
    let report = m.algorithm(&sample_order(), 500, &Vec::new()).unwrap();
    assert_eq!(report.len(), 0);
}

#[test]
fn test_float() {
    assert_eq!(U64F64::from_num(1.0) / U64F64::from_num(2), U64F64::from_num(0.5));
    assert_ne!(U64F64::from_num(1.0) / U64F64::from_num(3), U64F64::from_num(0.3));
    println!("{}", U64F64::from_num(1.0) / U64F64::from_num(3));
    let d: U64F64 = U64F64::from_num(1.0);
    let u = d.ceil().to_num::<u128>();
    println!("{}", u);
}
