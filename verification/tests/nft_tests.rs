use nft_auction::market::Module;
use nft_auction::types::{Config, Event};
use nft_auction::Error;

fn test_config() -> Config {
    Config {
        min_keep_block_num: 1,
        max_keep_block_num: 1000,
        minimum_price: 1,
        minimum_voting_lock: 5,
        fix_rate: 1u128 << 60,
        profit_rate: 1u128 << 62,
        day_block_num: 10,
    }
}

fn new_market() -> Module {
    let mut m = Module::new(test_config());
    m.deposit(1, 100_000).unwrap();
    m.deposit(2, 100_000).unwrap();
    m.deposit(3, 100_000).unwrap();
    m
}

#[test]
fn test_ntf_create() {
    let mut m = new_market();
    assert!(m.create(1, "hello".into()).is_ok());
    assert!(m.events().contains(&Event::NftCreated(1, 0)));
    assert!(m.nft_url(0).is_some());
    assert_ne!(m.nft_url(0).unwrap().len(), 0);
    assert_eq!(m.nft_account(0), Some(1));
}

#[test]
fn test_ntf_remove_success() {
    let mut m = new_market();
    assert!(m.create(1, "hello".into()).is_ok());
    assert!(m.remove(1, 0).is_ok());
    assert!(m.events().contains(&Event::NftRemove(1, 0)));
    assert!(m.nft_url(0).is_none());
    assert_ne!(m.nft_account(0), Some(1));
}

#[test]
fn test_ntf_remove_not_exist() {
    let mut m = new_market();
    assert_eq!(m.remove(1, 0), Err(Error::NotFound));
}

#[test]
fn test_ntf_remove_not_owner() {
    let mut m = new_market();
    assert!(m.create(1, "hello".into()).is_ok());
    assert_eq!(m.remove(2, 0), Err(Error::NotOwner));
}

#[test]
fn test_nft_remove_order_exist() {
    let mut m = new_market();
    assert!(m.create(1, "hello".into()).is_ok());
    assert!(m.order_sell(1, 0, 100, 200, 200, 10).is_ok());
    assert_eq!(m.remove(1, 0), Err(Error::AlreadyListed));
}

#[test]
fn test_ntf_transfer_success() {
    let mut m = new_market();
    assert!(m.create(1, "hello".into()).is_ok());
    assert!(m.transfer(1, 2, 0).is_ok());
    assert!(m.events().contains(&Event::NftTransfer(1, 2, 0)));
    assert!(m.nft_url(0).is_some());
    assert_ne!(m.nft_url(0).unwrap().len(), 0);
    assert_eq!(m.nft_account(0), Some(2));
}

#[test]
fn test_ntf_transfer_not_exist() {
    let mut m = new_market();
    assert_eq!(m.transfer(1, 2, 0), Err(Error::NotFound));
}

#[test]
fn test_ntf_transfer_not_owner() {
    let mut m = new_market();
    assert!(m.create(1, "hello".into()).is_ok());
    assert_eq!(m.transfer(2, 3, 0), Err(Error::NotOwner));
}

#[test]
fn test_nft_transfer_order_exist() {
    let mut m = new_market();
    assert!(m.create(1, "hello".into()).is_ok());
    assert!(m.order_sell(1, 0, 100, 200, 200, 10).is_ok());
    assert_eq!(m.transfer(1, 2, 0), Err(Error::AlreadyListed));
}

#[test]
fn test_order_sell_success() {
    let mut m = new_market();
    assert!(m.create(1, "hello".into()).is_ok());
    assert!(m.order_sell(1, 0, 100, 200, 200, 10).is_ok());
    let order_opt = m.order(0);
    assert!(order_opt.is_some());
    let order = order_opt.unwrap();
    assert_eq!(order.owner, 1);
    assert_eq!(order.order_id, 0);
    assert_eq!(order.start_price, 100);
    assert_eq!(order.end_price, 200);
    assert_eq!(order.keep_block_num, 200);
    assert_eq!(order.nft_id, 0);
    assert_eq!(m.order_of_nft(0), Some(0));
}

#[test]
fn test_order_buy_success() {
    let mut m = new_market();
    assert!(m.create(1, "hello".into()).is_ok());
    assert!(m.order_sell(1, 0, 100, 200, 200, 10).is_ok());
    assert!(m.order_buy(2, 0, 200, 10).is_ok());
    assert!(m.order(0).is_none());
    assert!(m.order_of_nft(0).is_none());
    assert_eq!(m.nft_account(0), Some(2));
}
