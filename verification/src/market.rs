//! The market module: the order lifecycle state machine.
//!
//! `Module` owns the asset records, the orders with their single live bids
//! and their stakes, the ledger, and the event log. Every public operation
//! executes as one indivisible unit: it either applies in full or fails
//! with an `Error` and changes nothing.

use vstd::prelude::*;
use crate::allocator::{alloc_spec, allocate};
use crate::errors::Error;
use crate::funds::{
    bid_contrib, bids_locked, lemma_seq_sum_ge_elem, lemma_seq_sum_le, lemma_seq_sum_nonneg,
    lemma_seq_sum_push, lemma_seq_sum_remove, lemma_seq_sum_skip_step, lemma_seq_sum_take_step,
    lemma_votes_locked_filter, off_order, on_order, refund_contrib, vote_contrib, votes_locked,
    votes_refund,
};
use crate::kv::{lemma_seq_get_absent, lemma_seq_get_index, KvStore};
use crate::ledger::Ledger;
use crate::types::{
    Bid, BuyOutcome, Config, Event, NftRecord, Order, SettleOutcome, Vote, YieldRecord,
};

verus! {

/// Whether the clock reads before the order was created (a time
/// subtraction would underflow).
pub open spec fn time_err(o: Order, now: u64) -> bool {
    now < o.create_block
}

/// Whether the order's window has elapsed: strictly more time has passed
/// than the order was to be kept open.
pub open spec fn expired(o: Order, now: u64) -> bool {
    now > o.create_block + o.keep_block_num
}

/// The market: storage, ledger, configuration and event log.
pub struct Module {
    pub cfg: Config,
    pub nfts: KvStore<NftRecord>,
    pub next_nft_id: u64,
    pub next_order_id: u64,
    pub orders: KvStore<Order>,
    pub bids: KvStore<Bid>,
    pub nft_order: KvStore<u64>,
    pub votes: Vec<Vote>,
    pub ledger: Ledger,
    pub events: Vec<Event>,
}

impl Module {
    /// A live order entry is internally consistent: keyed by its own id,
    /// priced within the configured bounds, windowed within the
    /// configured bounds, and indexed from its asset.
    pub open spec fn order_entry_ok(self, e: (u64, Order)) -> bool {
        &&& e.1.order_id == e.0
        &&& e.1.start_price >= self.cfg.minimum_price
        &&& e.1.start_price <= e.1.end_price
        &&& self.cfg.min_keep_block_num <= e.1.keep_block_num <= self.cfg.max_keep_block_num
        &&& self.nfts.spec_get(e.1.nft_id) is Some
        &&& self.nft_order.spec_get(e.1.nft_id) == Some(e.0)
    }

    /// An asset-to-order index entry points at a live order on that asset.
    pub open spec fn index_entry_ok(self, e: (u64, u64)) -> bool {
        match self.orders.spec_get(e.1) {
            Some(o) => o.nft_id == e.0,
            None => false,
        }
    }

    /// A live bid is keyed by its order's id, and priced at or above the
    /// order's floor but under its ceiling (a ceiling bid completes the
    /// order instead of installing a bid).
    pub open spec fn bid_entry_ok(self, e: (u64, Bid)) -> bool {
        &&& e.1.order_id == e.0
        &&& match self.orders.spec_get(e.0) {
            Some(o) => o.start_price <= e.1.price < o.end_price,
            None => false,
        }
    }

    /// A live stake belongs to a live order and meets the minimum.
    pub open spec fn vote_ok(self, v: Vote) -> bool {
        &&& self.orders.spec_get(v.order_id) is Some
        &&& v.amount >= self.cfg.minimum_voting_lock
    }

    /// The market's invariant. Besides the consistency of each record it
    /// carries the funds accounting: every account's reserved balance is
    /// exactly its live bid prices plus its live stake amounts.
    pub open spec fn wf(self) -> bool {
        &&& self.cfg.wf()
        &&& self.nfts.wf()
        &&& self.orders.wf()
        &&& self.bids.wf()
        &&& self.nft_order.wf()
        &&& self.ledger.wf()
        &&& forall|i: int|
            0 <= i < self.nfts.entries().len() ==> (#[trigger] self.nfts.entries()[i]).0
                < self.next_nft_id
        &&& forall|i: int|
            0 <= i < self.orders.entries().len() ==> (#[trigger] self.orders.entries()[i]).0
                < self.next_order_id
        &&& forall|i: int|
            0 <= i < self.orders.entries().len() ==> self.order_entry_ok(
                #[trigger] self.orders.entries()[i],
            )
        &&& forall|i: int|
            0 <= i < self.nft_order.entries().len() ==> self.index_entry_ok(
                #[trigger] self.nft_order.entries()[i],
            )
        &&& forall|i: int|
            0 <= i < self.bids.entries().len() ==> self.bid_entry_ok(
                #[trigger] self.bids.entries()[i],
            )
        &&& forall|i: int| 0 <= i < self.votes@.len() ==> self.vote_ok(#[trigger] self.votes@[i])
        &&& forall|a: u64|
            #[trigger] self.ledger.reserved_of(a) == bids_locked(self.bids.entries(), a)
                + votes_locked(self.votes@, a)
    }

    /// An empty market under configuration `cfg`.
    pub fn new(cfg: Config) -> (r: Module)
        requires
            cfg.wf(),
        ensures
            r.wf(),
            r.cfg == cfg,
            r.next_nft_id == 0 && r.next_order_id == 0,
            r.nfts.entries().len() == 0 && r.orders.entries().len() == 0 && r.bids.entries().len()
                == 0 && r.nft_order.entries().len() == 0 && r.votes@.len() == 0 && r.events@.len()
                == 0,
            forall|a: u64| r.ledger.free_of(a) == 0 && r.ledger.reserved_of(a) == 0,
    {
        let m = Module {
            cfg,
            nfts: KvStore::new(),
            next_nft_id: 0,
            next_order_id: 0,
            orders: KvStore::new(),
            bids: KvStore::new(),
            nft_order: KvStore::new(),
            votes: Vec::new(),
            ledger: Ledger::new(),
            events: Vec::new(),
        };
        m
    }

    /// Endow an account with free balance (a genesis or faucet step, not
    /// part of the auction lifecycle).
    pub fn deposit(&mut self, who: u64, amount: u64) -> (r: Result<(), Error>)
        requires
            old(self).wf(),
        ensures
            final(self).wf(),
            r is Ok <==> old(self).ledger.free_of(who) + old(self).ledger.reserved_of(who) + amount
                <= u64::MAX,
            r is Ok ==> final(self).ledger.free_of(who) == old(self).ledger.free_of(who) + amount,
            r matches Err(e) ==> e == Error::ArithmeticOverflow && *final(self) == *old(self),
            final(self).ledger.reserved_of(who) == old(self).ledger.reserved_of(who),
            forall|a2: u64|
                a2 != who ==> final(self).ledger.free_of(a2) == old(self).ledger.free_of(a2)
                    && final(self).ledger.reserved_of(a2) == old(self).ledger.reserved_of(a2),
            final(self).nfts == old(self).nfts && final(self).orders == old(self).orders && final(self).bids == old(self).bids && final(self).nft_order == old(self).nft_order && final(self).votes == old(self).votes && final(self).events == old(self).events,
            final(self).cfg == old(self).cfg && final(self).next_nft_id == old(self).next_nft_id
                && final(self).next_order_id == old(self).next_order_id,
    {
        self.ledger.deposit(who, amount)
    }

    /// The asset's payload, if the asset exists.
    pub fn nft_url(&self, nft_id: u64) -> (r: Option<&Vec<u8>>)
        requires
            self.wf(),
        ensures
            match r {
                Some(u) => match self.nfts.spec_get(nft_id) {
                    Some(rec) => rec.url == *u,
                    None => false,
                },
                None => self.nfts.spec_get(nft_id) is None,
            },
    {
        match self.nfts.get(nft_id) {
            Some(rec) => Some(&rec.url),
            None => None,
        }
    }

    /// The asset's current owner, if the asset exists.
    pub fn nft_account(&self, nft_id: u64) -> (r: Option<u64>)
        requires
            self.wf(),
        ensures
            match self.nfts.spec_get(nft_id) {
                Some(rec) => r == Some(rec.owner),
                None => r is None,
            },
    {
        match self.nfts.get(nft_id) {
            Some(rec) => Some(rec.owner),
            None => None,
        }
    }

    /// The live order with this id, if any.
    pub fn order(&self, order_id: u64) -> (r: Option<Order>)
        requires
            self.wf(),
        ensures
            r == self.orders.spec_get(order_id),
    {
        match self.orders.get(order_id) {
            Some(o) => Some(*o),
            None => None,
        }
    }

    /// The live bid on this order, if any.
    pub fn bid(&self, order_id: u64) -> (r: Option<Bid>)
        requires
            self.wf(),
        ensures
            r == self.bids.spec_get(order_id),
    {
        match self.bids.get(order_id) {
            Some(b) => Some(*b),
            None => None,
        }
    }

    /// The id of the live order on this asset, if any.
    pub fn order_of_nft(&self, nft_id: u64) -> (r: Option<u64>)
        requires
            self.wf(),
        ensures
            r == self.nft_order.spec_get(nft_id),
    {
        match self.nft_order.get(nft_id) {
            Some(oid) => Some(*oid),
            None => None,
        }
    }

    /// Account `who`'s free balance.
    pub fn free_balance(&self, who: u64) -> (r: u64)
        requires
            self.wf(),
        ensures
            r == self.ledger.free_of(who),
    {
        self.ledger.free_balance(who)
    }

    /// Account `who`'s reserved balance.
    pub fn reserved_balance(&self, who: u64) -> (r: u64)
        requires
            self.wf(),
        ensures
            r == self.ledger.reserved_of(who),
    {
        self.ledger.reserved_balance(who)
    }

    /// The event log so far.
    pub fn events(&self) -> (r: &Vec<Event>)
        ensures
            r == &self.events,
    {
        &self.events
    }

    /// The live stakes on this order, in submission order.
    pub fn votes_of(&self, order_id: u64) -> (r: Vec<Vote>)
        ensures
            r@ == self.votes@.filter(on_order(order_id)),
    {
        let mut out: Vec<Vote> = Vec::new();
        let n = self.votes.len();
        let mut i: usize = 0;
        while i < n
            invariant
                n == self.votes@.len(),
                i <= n,
                out@ == self.votes@.take(i as int).filter(on_order(order_id)),
            decreases n - i,
        {
            let v = self.votes[i];
            proof {
                assert(self.votes@.take(i + 1).drop_last() =~= self.votes@.take(i as int));
                assert(self.votes@.take(i + 1).last() == self.votes@[i as int]);
                reveal_with_fuel(Seq::filter, 2);
            }
            if v.order_id == order_id {
                out.push(v);
            }
            i += 1;
        }
        proof {
            assert(self.votes@.take(n as int) =~= self.votes@);
        }
        out
    }

    /// Register a new asset owned by `who`. Fails `CounterOverflow` when
    /// the id space is exhausted.
    pub fn create(&mut self, who: u64, url: Vec<u8>) -> (r: Result<u64, Error>)
        requires
            old(self).wf(),
        ensures
            final(self).wf(),
            match r {
                Ok(id) => {
                    &&& old(self).next_nft_id < u64::MAX
                    &&& id == old(self).next_nft_id
                    &&& final(self).next_nft_id == old(self).next_nft_id + 1
                    &&& final(self).nfts.spec_get(id) == Some(NftRecord { url: url, owner: who })
                    &&& forall|k: u64|
                        k != id ==> final(self).nfts.spec_get(k) == old(self).nfts.spec_get(k)
                    &&& final(self).events@ == old(self).events@.push(Event::NftCreated(who, id))
                },
                Err(e) => {
                    &&& e == Error::CounterOverflow
                    &&& old(self).next_nft_id == u64::MAX
                    &&& *final(self) == *old(self)
                },
            },
            final(self).orders == old(self).orders && final(self).bids == old(self).bids && final(self).nft_order == old(self).nft_order && final(self).votes == old(self).votes && final(self).ledger == old(self).ledger && final(self).cfg == old(self).cfg && final(self).next_order_id == old(self).next_order_id,
    {
        if self.next_nft_id == u64::MAX {
            return Err(Error::CounterOverflow);
        }
        let nft_id = self.next_nft_id;
        proof {
            assert forall|i: int| 0 <= i < self.nfts.entries().len() implies (
            #[trigger] self.nfts.entries()[i]).0 != nft_id by {}
            lemma_seq_get_absent(self.nfts.entries(), nft_id);
        }
        self.next_nft_id = self.next_nft_id + 1;
        self.nfts.put_new(nft_id, NftRecord { url, owner: who });
        self.events.push(Event::NftCreated(who, nft_id));
        proof {
            self.lemma_wf_after_nft_change(*old(self));
        }
        Ok(nft_id)
    }

    /// The parts of the invariant that do not mention the asset table
    /// carry over unchanged when only `nfts`, `next_nft_id` and `events`
    /// changed and no asset lookup went from present to absent.
    proof fn lemma_wf_after_nft_change(self, pre: Module)
        requires
            pre.wf(),
            self.cfg == pre.cfg,
            self.orders == pre.orders,
            self.bids == pre.bids,
            self.nft_order == pre.nft_order,
            self.votes == pre.votes,
            self.ledger == pre.ledger,
            self.next_order_id == pre.next_order_id,
            self.nfts.wf(),
            pre.next_nft_id <= self.next_nft_id,
            forall|i: int|
                0 <= i < self.nfts.entries().len() ==> (#[trigger] self.nfts.entries()[i]).0
                    < self.next_nft_id,
            forall|k: u64|
                pre.nfts.spec_get(k) is Some ==> #[trigger] self.nfts.spec_get(k) is Some,
        ensures
            self.wf(),
    {
        assert forall|i: int| 0 <= i < self.orders.entries().len() implies self.order_entry_ok(
            #[trigger] self.orders.entries()[i],
        ) by {
            assert(pre.order_entry_ok(pre.orders.entries()[i]));
        }
        assert forall|i: int| 0 <= i < self.nft_order.entries().len() implies self.index_entry_ok(
            #[trigger] self.nft_order.entries()[i],
        ) by {
            assert(pre.index_entry_ok(pre.nft_order.entries()[i]));
        }
        assert forall|i: int| 0 <= i < self.bids.entries().len() implies self.bid_entry_ok(
            #[trigger] self.bids.entries()[i],
        ) by {
            assert(pre.bid_entry_ok(pre.bids.entries()[i]));
        }
        assert forall|i: int| 0 <= i < self.votes@.len() implies self.vote_ok(
            #[trigger] self.votes@[i],
        ) by {
            assert(pre.vote_ok(pre.votes@[i]));
        }
    }

    /// Unregister an asset. Fails `NotFound` for an unknown asset,
    /// `NotOwner` unless `who` owns it, and `AlreadyListed` while a live
    /// order references it.
    pub fn remove(&mut self, who: u64, nft_id: u64) -> (r: Result<(), Error>)
        requires
            old(self).wf(),
        ensures
            final(self).wf(),
            match r {
                Ok(_) => {
                    &&& match old(self).nfts.spec_get(nft_id) {
                        Some(rec) => rec.owner == who,
                        None => false,
                    }
                    &&& old(self).nft_order.spec_get(nft_id) is None
                    &&& final(self).nfts.spec_get(nft_id) is None
                    &&& forall|k: u64|
                        k != nft_id ==> final(self).nfts.spec_get(k) == old(self).nfts.spec_get(k)
                    &&& final(self).events@ == old(self).events@.push(Event::NftRemove(who, nft_id))
                },
                Err(e) => {
                    &&& *final(self) == *old(self)
                    &&& match old(self).nfts.spec_get(nft_id) {
                        None => e == Error::NotFound,
                        Some(rec) => if rec.owner != who {
                            e == Error::NotOwner
                        } else {
                            e == Error::AlreadyListed && old(self).nft_order.spec_get(nft_id)
                                is Some
                        },
                    }
                },
            },
            final(self).orders == old(self).orders && final(self).bids == old(self).bids && final(self).nft_order == old(self).nft_order && final(self).votes == old(self).votes && final(self).ledger == old(self).ledger && final(self).cfg == old(self).cfg && final(self).next_nft_id == old(self).next_nft_id && final(self).next_order_id == old(self).next_order_id,
    {
        let owner = match self.nfts.get(nft_id) {
            Some(rec) => rec.owner,
            None => {
                return Err(Error::NotFound);
            },
        };
        if owner != who {
            return Err(Error::NotOwner);
        }
        if self.nft_order.contains(nft_id) {
            return Err(Error::AlreadyListed);
        }
        let _ = self.nfts.remove(nft_id);
        self.events.push(Event::NftRemove(who, nft_id));
        proof {
            // no live order references this asset: its index entry is absent
            assert forall|k: u64|
                old(self).nfts.spec_get(k) is Some && k != nft_id implies #[trigger] self.nfts.spec_get(
                k,
            ) is Some by {}
            assert forall|i: int| 0 <= i < self.orders.entries().len() implies self.order_entry_ok(
                #[trigger] self.orders.entries()[i],
            ) by {
                let e = self.orders.entries()[i];
                assert(old(self).order_entry_ok(e));
                if e.1.nft_id == nft_id {
                    let j = lemma_seq_get_index(old(self).nft_order.entries(), nft_id);
                }
            }
            assert forall|i: int|
                0 <= i < self.nft_order.entries().len() implies self.index_entry_ok(
                #[trigger] self.nft_order.entries()[i],
            ) by {
                assert(old(self).index_entry_ok(old(self).nft_order.entries()[i]));
            }
            assert forall|i: int| 0 <= i < self.bids.entries().len() implies self.bid_entry_ok(
                #[trigger] self.bids.entries()[i],
            ) by {
                assert(old(self).bid_entry_ok(old(self).bids.entries()[i]));
            }
            assert forall|i: int| 0 <= i < self.votes@.len() implies self.vote_ok(
                #[trigger] self.votes@[i],
            ) by {
                assert(old(self).vote_ok(old(self).votes@[i]));
            }
        }
        Ok(())
    }

    /// Hand an asset to `target`. Fails `NotFound` for an unknown asset,
    /// `NotOwner` unless `who` owns it, and `AlreadyListed` while a live
    /// order references it.
    pub fn transfer(&mut self, who: u64, target: u64, nft_id: u64) -> (r: Result<(), Error>)
        requires
            old(self).wf(),
        ensures
            final(self).wf(),
            match r {
                Ok(_) => {
                    &&& match old(self).nfts.spec_get(nft_id) {
                        Some(rec) => rec.owner == who && match final(self).nfts.spec_get(nft_id) {
                            Some(rec2) => rec2.owner == target && rec2.url@ == rec.url@,
                            None => false,
                        },
                        None => false,
                    }
                    &&& old(self).nft_order.spec_get(nft_id) is None
                    &&& forall|k: u64|
                        k != nft_id ==> final(self).nfts.spec_get(k) == old(self).nfts.spec_get(k)
                    &&& final(self).events@ == old(self).events@.push(
                        Event::NftTransfer(who, target, nft_id),
                    )
                },
                Err(e) => {
                    &&& *final(self) == *old(self)
                    &&& match old(self).nfts.spec_get(nft_id) {
                        None => e == Error::NotFound,
                        Some(rec) => if rec.owner != who {
                            e == Error::NotOwner
                        } else {
                            e == Error::AlreadyListed && old(self).nft_order.spec_get(nft_id)
                                is Some
                        },
                    }
                },
            },
            final(self).orders == old(self).orders && final(self).bids == old(self).bids && final(self).nft_order == old(self).nft_order && final(self).votes == old(self).votes && final(self).ledger == old(self).ledger && final(self).cfg == old(self).cfg && final(self).next_nft_id == old(self).next_nft_id && final(self).next_order_id == old(self).next_order_id,
    {
        let (owner, url) = match self.nfts.get(nft_id) {
            Some(rec) => (rec.owner, rec.url.clone()),
            None => {
                return Err(Error::NotFound);
            },
        };
        if owner != who {
            return Err(Error::NotOwner);
        }
        if self.nft_order.contains(nft_id) {
            return Err(Error::AlreadyListed);
        }
        self.nfts.set(nft_id, NftRecord { url, owner: target });
        self.events.push(Event::NftTransfer(who, target, nft_id));
        proof {
            self.lemma_wf_after_nft_change(*old(self));
        }
        Ok(())
    }

    /// Whether the order's window has elapsed at time `now`. Fails
    /// `ArithmeticOverflow` when the clock reads before the order's
    /// creation (the elapsed-time subtraction would underflow).
    fn is_time_to_settlement(order: &Order, now: u64) -> (r: Result<bool, Error>)
        ensures
            match r {
                Ok(b) => !time_err(*order, now) && b == expired(*order, now),
                Err(e) => e == Error::ArithmeticOverflow && time_err(*order, now),
            },
    {
        if now < order.create_block {
            return Err(Error::ArithmeticOverflow);
        }
        let sub_block = now - order.create_block;
        Ok(sub_block > order.keep_block_num)
    }

    /// List an asset for auction: floor `start_price`, instant-buy ceiling
    /// `end_price`, open for `keep_block_num` time units from `now`.
    pub fn order_sell(
        &mut self,
        who: u64,
        nft_id: u64,
        start_price: u64,
        end_price: u64,
        keep_block_num: u64,
        now: u64,
    ) -> (r: Result<u64, Error>)
        requires
            old(self).wf(),
        ensures
            final(self).wf(),
            match r {
                Ok(oid) => {
                    &&& old(self).cfg.min_keep_block_num <= keep_block_num <= old(self).cfg.max_keep_block_num
                    &&& match old(self).nfts.spec_get(nft_id) {
                        Some(rec) => rec.owner == who,
                        None => false,
                    }
                    &&& old(self).nft_order.spec_get(nft_id) is None
                    &&& start_price >= old(self).cfg.minimum_price
                    &&& start_price <= end_price
                    &&& old(self).next_order_id < u64::MAX
                    &&& oid == old(self).next_order_id
                    &&& final(self).next_order_id == old(self).next_order_id + 1
                    &&& final(self).orders.spec_get(oid) == Some(
                        Order {
                            order_id: oid,
                            start_price,
                            end_price,
                            nft_id,
                            create_block: now,
                            keep_block_num,
                            owner: who,
                        },
                    )
                    &&& forall|k: u64|
                        k != oid ==> final(self).orders.spec_get(k) == old(self).orders.spec_get(k)
                    &&& final(self).nft_order.spec_get(nft_id) == Some(oid)
                    &&& forall|k: u64|
                        k != nft_id ==> final(self).nft_order.spec_get(k) == old(self).nft_order.spec_get(k)
                    &&& final(self).events@ == old(self).events@.push(
                        Event::OrderSell(
                            who,
                            Order {
                                order_id: oid,
                                start_price,
                                end_price,
                                nft_id,
                                create_block: now,
                                keep_block_num,
                                owner: who,
                            },
                        ),
                    )
                },
                Err(e) => {
                    &&& *final(self) == *old(self)
                    &&& if keep_block_num > old(self).cfg.max_keep_block_num || keep_block_num < old(self).cfg.min_keep_block_num {
                        e == Error::DurationOutOfBounds
                    } else {
                        match old(self).nfts.spec_get(nft_id) {
                            None => e == Error::NotFound,
                            Some(rec) => if rec.owner != who {
                                e == Error::NotOwner
                            } else if old(self).nft_order.spec_get(nft_id) is Some {
                                e == Error::AlreadyListed
                            } else if start_price < old(self).cfg.minimum_price {
                                e == Error::PriceBelowFloor
                            } else if start_price > end_price {
                                e == Error::InvalidPriceRange
                            } else {
                                e == Error::CounterOverflow && old(self).next_order_id == u64::MAX
                            },
                        }
                    }
                },
            },
            final(self).nfts == old(self).nfts && final(self).bids == old(self).bids && final(self).votes == old(self).votes && final(self).ledger == old(self).ledger && final(self).cfg
                == old(self).cfg && final(self).next_nft_id == old(self).next_nft_id,
    {
        if keep_block_num > self.cfg.max_keep_block_num {
            return Err(Error::DurationOutOfBounds);
        }
        if keep_block_num < self.cfg.min_keep_block_num {
            return Err(Error::DurationOutOfBounds);
        }
        let owner = match self.nfts.get(nft_id) {
            Some(rec) => rec.owner,
            None => {
                return Err(Error::NotFound);
            },
        };
        if owner != who {
            return Err(Error::NotOwner);
        }
        if self.nft_order.contains(nft_id) {
            return Err(Error::AlreadyListed);
        }
        if start_price < self.cfg.minimum_price {
            return Err(Error::PriceBelowFloor);
        }
        if start_price > end_price {
            return Err(Error::InvalidPriceRange);
        }
        if self.next_order_id == u64::MAX {
            return Err(Error::CounterOverflow);
        }
        let order_id = self.next_order_id;
        let order = Order {
            order_id,
            start_price,
            end_price,
            nft_id,
            create_block: now,
            keep_block_num,
            owner: who,
        };
        proof {
            assert forall|i: int| 0 <= i < self.orders.entries().len() implies (
            #[trigger] self.orders.entries()[i]).0 != order_id by {}
            lemma_seq_get_absent(self.orders.entries(), order_id);
        }
        self.next_order_id = self.next_order_id + 1;
        self.orders.put_new(order_id, order);
        self.nft_order.put_new(nft_id, order_id);
        self.events.push(Event::OrderSell(who, order));
        proof {
            let pre = *old(self);
            assert forall|i: int| 0 <= i < self.orders.entries().len() implies self.order_entry_ok(
                #[trigger] self.orders.entries()[i],
            ) by {
                let e = self.orders.entries()[i];
                if i < pre.orders.entries().len() {
                    assert(pre.order_entry_ok(e));
                    assert(e.1.nft_id != nft_id || e.0 == order_id) by {
                        if e.1.nft_id == nft_id {
                            assert(pre.nft_order.spec_get(nft_id) == Some(e.0));
                        }
                    }
                } else {
                    assert(e == (order_id, order));
                }
            }
            assert forall|i: int|
                0 <= i < self.nft_order.entries().len() implies self.index_entry_ok(
                #[trigger] self.nft_order.entries()[i],
            ) by {
                let e = self.nft_order.entries()[i];
                if i < pre.nft_order.entries().len() {
                    assert(pre.index_entry_ok(e));
                    assert(e.1 != order_id) by {
                        let j = lemma_seq_get_index(pre.orders.entries(), e.1);
                    }
                } else {
                    assert(e == (nft_id, order_id));
                }
            }
            assert forall|i: int| 0 <= i < self.bids.entries().len() implies self.bid_entry_ok(
                #[trigger] self.bids.entries()[i],
            ) by {
                let e = self.bids.entries()[i];
                assert(pre.bid_entry_ok(e));
                assert(e.0 != order_id) by {
                    let j = lemma_seq_get_index(pre.orders.entries(), e.0);
                }
            }
            assert forall|i: int| 0 <= i < self.votes@.len() implies self.vote_ok(
                #[trigger] self.votes@[i],
            ) by {
                let v = self.votes@[i];
                assert(pre.vote_ok(v));
                assert(v.order_id != order_id) by {
                    let j = lemma_seq_get_index(pre.orders.entries(), v.order_id);
                }
            }
        }
        Ok(order_id)
    }

    /// Stake `amount` against an open order, earning a place in its
    /// settlement reward curve. The stake's weight records how much of the
    /// order's window remains.
    pub fn vote_order(&mut self, who: u64, order_id: u64, amount: u64, now: u64) -> (r: Result<
        (),
        Error,
    >)
        requires
            old(self).wf(),
        ensures
            final(self).wf(),
            match r {
                Ok(_) => {
                    &&& match old(self).orders.spec_get(order_id) {
                        Some(o) => {
                            &&& !time_err(o, now)
                            &&& !expired(o, now)
                            &&& o.create_block + o.keep_block_num <= u64::MAX
                            &&& final(self).votes@ == old(self).votes@.push(
                                Vote {
                                    order_id,
                                    amount,
                                    keep_block_num: (o.create_block + o.keep_block_num
                                        - now) as u64,
                                    owner: who,
                                },
                            )
                        },
                        None => false,
                    }
                    &&& amount >= old(self).cfg.minimum_voting_lock
                    &&& old(self).ledger.free_of(who) >= amount
                    &&& final(self).ledger.free_of(who) == old(self).ledger.free_of(who) - amount
                    &&& final(self).ledger.reserved_of(who) == old(self).ledger.reserved_of(who)
                        + amount
                    &&& forall|a2: u64|
                        a2 != who ==> final(self).ledger.free_of(a2) == old(self).ledger.free_of(a2)
                            && final(self).ledger.reserved_of(a2) == old(self).ledger.reserved_of(
                            a2,
                        )
                },
                Err(e) => {
                    &&& *final(self) == *old(self)
                    &&& match old(self).orders.spec_get(order_id) {
                        None => e == Error::NotFound,
                        Some(o) => if time_err(o, now) {
                            e == Error::ArithmeticOverflow
                        } else if expired(o, now) {
                            e == Error::TooLate
                        } else if amount < old(self).cfg.minimum_voting_lock {
                            e == Error::StakeTooLow
                        } else if o.create_block + o.keep_block_num > u64::MAX {
                            e == Error::ArithmeticOverflow
                        } else {
                            e == Error::InsufficientFunds && old(self).ledger.free_of(who) < amount
                        },
                    }
                },
            },
            final(self).nfts == old(self).nfts && final(self).orders == old(self).orders && final(self).bids == old(self).bids && final(self).nft_order == old(self).nft_order && final(self).events == old(self).events && final(self).cfg == old(self).cfg && final(self).next_nft_id == old(self).next_nft_id && final(self).next_order_id == old(self).next_order_id,
    {
        let order = match self.orders.get(order_id) {
            Some(o) => *o,
            None => {
                return Err(Error::NotFound);
            },
        };
        proof {
            let j = lemma_seq_get_index(self.orders.entries(), order_id);
            assert(self.order_entry_ok(self.orders.entries()[j]));
            assert(order.order_id == order_id);
        }
        match Self::is_time_to_settlement(&order, now) {
            Ok(true) => {
                return Err(Error::TooLate);
            },
            Ok(false) => {},
            Err(e) => {
                return Err(e);
            },
        }
        if amount < self.cfg.minimum_voting_lock {
            return Err(Error::StakeTooLow);
        }
        if order.create_block > u64::MAX - order.keep_block_num {
            return Err(Error::ArithmeticOverflow);
        }
        let keep_block_num = order.create_block + order.keep_block_num - now;
        match self.ledger.reserve(who, amount) {
            Ok(_) => {},
            Err(e) => {
                return Err(e);
            },
        }
        let vote = Vote { order_id, amount, keep_block_num, owner: who };
        self.votes.push(vote);
        proof {
            let pre = *old(self);
            assert forall|i: int| 0 <= i < self.votes@.len() implies self.vote_ok(
                #[trigger] self.votes@[i],
            ) by {
                if i < pre.votes@.len() {
                    assert(pre.vote_ok(pre.votes@[i]));
                }
            }
            assert forall|a: u64| #[trigger] self.ledger.reserved_of(a) == bids_locked(
                self.bids.entries(),
                a,
            ) + votes_locked(self.votes@, a) by {
                lemma_seq_sum_push(pre.votes@, vote_contrib(a), vote);
                assert(pre.ledger.reserved_of(a) == bids_locked(pre.bids.entries(), a)
                    + votes_locked(pre.votes@, a));
            }
        }
        Ok(())
    }

    /// Release the live bid on `order_id`, if any: unreserve the bidder's
    /// locked funds and drop the bid record. Operates on the bid table and
    /// ledger alone; callers restore the market-level accounting.
    fn clean_bid(bids: &mut KvStore<Bid>, ledger: &mut Ledger, order_id: u64)
        requires
            old(bids).wf(),
            old(ledger).wf(),
            match old(bids).spec_get(order_id) {
                Some(b) => old(ledger).reserved_of(b.owner) >= b.price,
                None => true,
            },
        ensures
            final(bids).wf(),
            final(ledger).wf(),
            final(bids).spec_get(order_id) is None,
            forall|k: u64|
                k != order_id ==> final(bids).spec_get(k) == old(bids).spec_get(k),
            forall|a: u64|
                final(ledger).reserved_of(a) - bids_locked(final(bids).entries(), a) == old(ledger).reserved_of(a) - bids_locked(old(bids).entries(), a),
            match old(bids).spec_get(order_id) {
                Some(b) => {
                    &&& final(ledger).free_of(b.owner) == old(ledger).free_of(b.owner) + b.price
                    &&& final(ledger).reserved_of(b.owner) == old(ledger).reserved_of(b.owner)
                        - b.price
                    &&& forall|a: u64|
                        a != b.owner ==> final(ledger).free_of(a) == old(ledger).free_of(a)
                            && final(ledger).reserved_of(a) == old(ledger).reserved_of(a)
                },
                None => *final(bids) == *old(bids) && *final(ledger) == *old(ledger),
            },
    {
        let bid = match bids.get(order_id) {
            Some(b) => *b,
            None => {
                return ;
            },
        };
        let _ = ledger.unreserve(bid.owner, bid.price);
        let _ = bids.remove(order_id);
        proof {
            let s0 = old(bids).entries();
            let i = choose|i: int|
                0 <= i < s0.len() && s0[i].0 == order_id && bids.entries() == s0.remove(i);
            crate::kv::lemma_seq_get_present(s0, order_id, i);
            assert(s0[i].1 == bid);
            assert forall|a: u64|
                final(ledger).reserved_of(a) - bids_locked(bids.entries(), a) == old(ledger).reserved_of(a) - bids_locked(s0, a) by {
                lemma_seq_sum_remove(s0, bid_contrib(a), i);
            }
        }
    }

    /// Release the live bid on `order_id`, if any: the bidder's locked
    /// funds return to their free balance and the bid record is dropped.
    pub fn clean_order_bid(&mut self, order_id: u64)
        requires
            old(self).wf(),
        ensures
            final(self).wf(),
            final(self).bids.spec_get(order_id) is None,
            forall|k: u64|
                k != order_id ==> final(self).bids.spec_get(k) == old(self).bids.spec_get(k),
            match old(self).bids.spec_get(order_id) {
                Some(b) => {
                    &&& final(self).ledger.free_of(b.owner) == old(self).ledger.free_of(b.owner)
                        + b.price
                    &&& final(self).ledger.reserved_of(b.owner) == old(self).ledger.reserved_of(
                        b.owner,
                    ) - b.price
                    &&& forall|a: u64|
                        a != b.owner ==> final(self).ledger.free_of(a) == old(self).ledger.free_of(
                            a,
                        ) && final(self).ledger.reserved_of(a) == old(self).ledger.reserved_of(a)
                },
                None => *final(self) == *old(self),
            },
            final(self).nfts == old(self).nfts && final(self).orders == old(self).orders && final(self).nft_order == old(self).nft_order && final(self).votes == old(self).votes && final(self).events == old(self).events && final(self).cfg == old(self).cfg && final(self).next_nft_id == old(self).next_nft_id && final(self).next_order_id == old(self).next_order_id,
    {
        proof {
            let pre = *old(self);
            match pre.bids.spec_get(order_id) {
                Some(b) => {
                    let i = lemma_seq_get_index(pre.bids.entries(), order_id);
                    lemma_seq_sum_ge_elem(pre.bids.entries(), bid_contrib(b.owner), i);
                    lemma_seq_sum_nonneg(pre.votes@, vote_contrib(b.owner));
                    assert(pre.ledger.reserved_of(b.owner) >= b.price);
                },
                None => {},
            }
        }
        Self::clean_bid(&mut self.bids, &mut self.ledger, order_id);
        proof {
            let pre = *old(self);
            assert(self.bids.wf());
            assert forall|i: int| 0 <= i < self.bids.entries().len() implies self.bid_entry_ok(
                #[trigger] self.bids.entries()[i],
            ) by {
                let e = self.bids.entries()[i];
                crate::kv::lemma_seq_get_present(self.bids.entries(), e.0, i);
                assert(self.bids.spec_get(e.0) == Some(e.1));
                if e.0 == order_id {
                    assert(self.bids.spec_get(order_id) is None);
                    assert(false);
                } else {
                    assert(self.bids.spec_get(e.0) == pre.bids.spec_get(e.0));
                    assert(pre.bids.spec_get(e.0) is Some);
                    let j = lemma_seq_get_index(pre.bids.entries(), e.0);
                    assert(pre.bid_entry_ok(pre.bids.entries()[j]));
                    assert(pre.bids.entries()[j].1 == e.1);
                    assert(self.orders == pre.orders);
                    assert(self.bid_entry_ok(e));
                }
            }
        }
    }

    /// Refund every stake on `order_id`: each staker's exact principal
    /// moves from reserved back to free, and the order's stakes are
    /// dropped. Operates on the ledger and stake list alone.
    fn refund_votes(ledger: &mut Ledger, votes: &mut Vec<Vote>, order_id: u64)
        requires
            old(ledger).wf(),
            forall|a: u64|
                #[trigger] old(ledger).reserved_of(a) >= votes_refund(old(votes)@, order_id, a),
        ensures
            final(ledger).wf(),
            final(votes)@ == old(votes)@.filter(off_order(order_id)),
            forall|a: u64|
                #[trigger] final(ledger).reserved_of(a) == old(ledger).reserved_of(a)
                    - votes_refund(old(votes)@, order_id, a),
            forall|a: u64|
                #[trigger] final(ledger).free_of(a) == old(ledger).free_of(a) + votes_refund(
                    old(votes)@,
                    order_id,
                    a,
                ),
    {
        let s_len = votes.len();
        proof {
            assert(old(votes)@.skip(0) =~= old(votes)@);
            assert(old(votes)@.take(0) =~= Seq::<Vote>::empty());
        }
        let mut remaining: Vec<Vote> = Vec::new();
        let mut i: usize = 0;
        while i < s_len
            invariant
                s_len == old(votes)@.len(),
                votes@ == old(votes)@,
                i <= s_len,
                ledger.wf(),
                remaining@ == old(votes)@.take(i as int).filter(off_order(order_id)),
                forall|a: u64|
                    #[trigger] ledger.reserved_of(a) == old(ledger).reserved_of(a) - votes_refund(
                        old(votes)@.take(i as int),
                        order_id,
                        a,
                    ),
                forall|a: u64|
                    #[trigger] ledger.free_of(a) == old(ledger).free_of(a) + votes_refund(
                        old(votes)@.take(i as int),
                        order_id,
                        a,
                    ),
                forall|a: u64|
                    #[trigger] ledger.reserved_of(a) >= votes_refund(
                        old(votes)@.skip(i as int),
                        order_id,
                        a,
                    ),
            decreases s_len - i,
        {
            let ghost s = old(votes)@;
            let v = votes[i];
            proof {
                assert(s.take(i + 1).drop_last() =~= s.take(i as int));
                assert(s.take(i + 1).last() == s[i as int]);
                reveal_with_fuel(Seq::filter, 2);
                assert forall|a: u64| true implies #[trigger] votes_refund(s.take(i + 1), order_id, a)
                    == votes_refund(s.take(i as int), order_id, a) + refund_contrib(order_id, a)(
                    v,
                ) by {
                    lemma_seq_sum_take_step(s, refund_contrib(order_id, a), i as int);
                }
                assert forall|a: u64| true implies #[trigger] votes_refund(s.skip(i as int), order_id, a)
                    == refund_contrib(order_id, a)(v) + votes_refund(s.skip(i + 1), order_id, a) by {
                    lemma_seq_sum_skip_step(s, refund_contrib(order_id, a), i as int);
                }
            }
            if v.order_id == order_id {
                proof {
                    lemma_seq_sum_nonneg(s.skip(i + 1), refund_contrib(order_id, v.owner));
                    assert(ledger.reserved_of(v.owner) >= v.amount);
                }
                let _ = ledger.unreserve(v.owner, v.amount);
            } else {
                remaining.push(v);
            }
            i += 1;
        }
        proof {
            assert(old(votes)@.take(s_len as int) =~= old(votes)@);
            assert(old(votes)@.skip(s_len as int) =~= Seq::<Vote>::empty());
        }
        *votes = remaining;
    }

    /// Drop a terminating order: its record, its asset index entry and its
    /// stakes go, and every staker's exact principal is refunded. The bid
    /// must already be gone.
    fn purge_order(&mut self, order: Order)
        requires
            old(self).wf(),
            old(self).orders.spec_get(order.order_id) == Some(order),
            old(self).bids.spec_get(order.order_id) is None,
        ensures
            final(self).wf(),
            final(self).orders.spec_get(order.order_id) is None,
            forall|k: u64|
                k != order.order_id ==> final(self).orders.spec_get(k) == old(self).orders.spec_get(
                    k,
                ),
            final(self).nft_order.spec_get(order.nft_id) is None,
            forall|k: u64|
                k != order.nft_id ==> final(self).nft_order.spec_get(k) == old(self).nft_order.spec_get(k),
            final(self).votes@ == old(self).votes@.filter(off_order(order.order_id)),
            forall|a: u64|
                #[trigger] final(self).ledger.reserved_of(a) == old(self).ledger.reserved_of(a)
                    - votes_refund(old(self).votes@, order.order_id, a),
            forall|a: u64|
                #[trigger] final(self).ledger.free_of(a) == old(self).ledger.free_of(a)
                    + votes_refund(old(self).votes@, order.order_id, a),
            final(self).nfts == old(self).nfts && final(self).bids == old(self).bids && final(self).events == old(self).events && final(self).cfg == old(self).cfg && final(self).next_nft_id == old(self).next_nft_id && final(self).next_order_id == old(self).next_order_id,
    {
        proof {
            assert forall|a: u64|
                #[trigger] self.ledger.reserved_of(a) >= votes_refund(
                    self.votes@,
                    order.order_id,
                    a,
                ) by {
                lemma_seq_sum_nonneg(self.bids.entries(), bid_contrib(a));
                lemma_seq_sum_le(self.votes@, refund_contrib(order.order_id, a), vote_contrib(a));
            }
        }
        let _ = self.orders.remove(order.order_id);
        let _ = self.nft_order.remove(order.nft_id);
        Self::refund_votes(&mut self.ledger, &mut self.votes, order.order_id);
        proof {
            let pre = *old(self);
            // remaining orders are consistent: none of them shares this
            // asset, for the index pointed the asset at this order alone
            assert forall|i: int| 0 <= i < self.orders.entries().len() implies self.order_entry_ok(
                #[trigger] self.orders.entries()[i],
            ) by {
                let e = self.orders.entries()[i];
                crate::kv::lemma_seq_get_present(self.orders.entries(), e.0, i);
                assert(self.orders.spec_get(e.0) == Some(e.1));
                assert(e.0 != order.order_id);
                assert(pre.orders.spec_get(e.0) is Some);
                let j = lemma_seq_get_index(pre.orders.entries(), e.0);
                assert(pre.order_entry_ok(pre.orders.entries()[j]));
                assert(e.1.nft_id != order.nft_id) by {
                    if e.1.nft_id == order.nft_id {
                        assert(pre.nft_order.spec_get(order.nft_id) == Some(e.0));
                        assert(pre.nft_order.spec_get(order.nft_id) == Some(order.order_id)) by {
                            let k = lemma_seq_get_index(pre.orders.entries(), order.order_id);
                            assert(pre.order_entry_ok(pre.orders.entries()[k]));
                        }
                    }
                }
            }
            assert forall|i: int|
                0 <= i < self.nft_order.entries().len() implies self.index_entry_ok(
                #[trigger] self.nft_order.entries()[i],
            ) by {
                let e = self.nft_order.entries()[i];
                crate::kv::lemma_seq_get_present(self.nft_order.entries(), e.0, i);
                assert(self.nft_order.spec_get(e.0) == Some(e.1));
                assert(e.0 != order.nft_id);
                assert(pre.nft_order.spec_get(e.0) is Some);
                let j = lemma_seq_get_index(pre.nft_order.entries(), e.0);
                assert(pre.index_entry_ok(pre.nft_order.entries()[j]));
                assert(e.1 != order.order_id) by {
                    if e.1 == order.order_id {
                        assert(pre.orders.spec_get(e.1) == Some(order));
                        assert(e.0 == order.nft_id);
                    }
                }
            }
            assert forall|i: int| 0 <= i < self.bids.entries().len() implies self.bid_entry_ok(
                #[trigger] self.bids.entries()[i],
            ) by {
                let e = self.bids.entries()[i];
                assert(pre.bid_entry_ok(e));
                assert(e.0 != order.order_id) by {
                    if e.0 == order.order_id {
                        crate::kv::lemma_seq_get_present(pre.bids.entries(), e.0, i);
                    }
                }
            }
            assert forall|i: int| 0 <= i < self.votes@.len() implies self.vote_ok(
                #[trigger] self.votes@[i],
            ) by {
                let v = self.votes@[i];
                crate::funds::lemma_filter_elem(pre.votes@, off_order(order.order_id), i);
                assert(pre.votes@.contains(v));
                let k = choose|k: int| 0 <= k < pre.votes@.len() && pre.votes@[k] == v;
                assert(pre.vote_ok(pre.votes@[k]));
                assert(off_order(order.order_id)(v));
                assert(v.order_id != order.order_id);
            }
            assert forall|a: u64| #[trigger] self.ledger.reserved_of(a) == bids_locked(
                self.bids.entries(),
                a,
            ) + votes_locked(self.votes@, a) by {
                lemma_votes_locked_filter(pre.votes@, order.order_id, a);
            }
        }
    }

    /// Execute the terminal completion transition: the winner pays the
    /// clearing price to the seller, the order and its stakes are purged
    /// (every staker's exact principal refunded), the asset changes hands
    /// to the winner, and the settlement report over the order's stakes is
    /// produced and returned.
    fn order_complete(&mut self, order: Order, winner: u64, price: u64, _settlement: u64) -> (report:
        Vec<YieldRecord>)
        requires
            old(self).wf(),
            old(self).orders.spec_get(order.order_id) == Some(order),
            old(self).bids.spec_get(order.order_id) is None,
            alloc_spec(
                old(self).cfg,
                order.keep_block_num,
                price,
                old(self).votes@.filter(on_order(order.order_id)),
            ) is Some,
            old(self).ledger.free_of(winner) >= price,
            winner == order.owner || old(self).ledger.free_of(order.owner) + old(self).ledger.reserved_of(order.owner) + price <= u64::MAX,
        ensures
            final(self).wf(),
            alloc_spec(
                old(self).cfg,
                order.keep_block_num,
                price,
                old(self).votes@.filter(on_order(order.order_id)),
            ) == Some(report@),
            final(self).orders.spec_get(order.order_id) is None,
            forall|k: u64|
                k != order.order_id ==> final(self).orders.spec_get(k) == old(self).orders.spec_get(
                    k,
                ),
            final(self).nft_order.spec_get(order.nft_id) is None,
            forall|k: u64|
                k != order.nft_id ==> final(self).nft_order.spec_get(k) == old(self).nft_order.spec_get(k),
            final(self).votes@ == old(self).votes@.filter(off_order(order.order_id)),
            match final(self).nfts.spec_get(order.nft_id) {
                Some(rec2) => rec2.owner == winner && match old(self).nfts.spec_get(order.nft_id) {
                    Some(rec) => rec2.url@ == rec.url@,
                    None => false,
                },
                None => false,
            },
            forall|k: u64|
                k != order.nft_id ==> final(self).nfts.spec_get(k) == old(self).nfts.spec_get(k),
            forall|a: u64|
                #[trigger] final(self).ledger.free_of(a) == old(self).ledger.free_of(a) - (
                if a == winner {
                    price as int
                } else {
                    0
                }) + (if a == order.owner {
                    price as int
                } else {
                    0
                }) + votes_refund(old(self).votes@, order.order_id, a),
            forall|a: u64|
                #[trigger] final(self).ledger.reserved_of(a) == old(self).ledger.reserved_of(a)
                    - votes_refund(old(self).votes@, order.order_id, a),
            final(self).events@ == old(self).events@.push(
                Event::OrderComplete(winner, order.order_id, price),
            ),
            final(self).bids == old(self).bids && final(self).cfg == old(self).cfg && final(self).next_nft_id == old(self).next_nft_id && final(self).next_order_id == old(self).next_order_id,
    {
        let my_votes = self.votes_of(order.order_id);
        let report = match allocate(&self.cfg, order.keep_block_num, price, &my_votes) {
            Ok(rep) => rep,
            Err(_) => {
                proof {
                    assert(false);
                }
                vstd::pervasive::unreached()
            },
        };
        let _ = self.ledger.transfer(winner, order.owner, price);
        self.purge_order(order);
        proof {
            let k = lemma_seq_get_index(old(self).orders.entries(), order.order_id);
            assert(old(self).order_entry_ok(old(self).orders.entries()[k]));
            assert(self.nfts.spec_get(order.nft_id) is Some);
        }
        let url = match self.nfts.get(order.nft_id) {
            Some(rec) => rec.url.clone(),
            None => Vec::new(),
        };
        let ghost mid = *self;
        self.nfts.set(order.nft_id, NftRecord { url, owner: winner });
        self.events.push(Event::OrderComplete(winner, order.order_id, price));
        proof {
            assert forall|i: int|
                0 <= i < self.nfts.entries().len() implies (#[trigger] self.nfts.entries()[i]).0
                < self.next_nft_id by {
                assert(self.nfts.entries()[i].0 == mid.nfts.entries()[i].0);
            }
            self.lemma_wf_after_nft_change(mid);
        }
        report
    }

    /// Bid `price` on an open order. A bid under the ceiling replaces the
    /// live bid (releasing the prior bidder's locked funds and locking the
    /// new bidder's) as one atomic unit; a bid at or above the ceiling
    /// completes the order instantly at the ceiling price.
    pub fn order_buy(&mut self, who: u64, order_id: u64, price: u64, now: u64) -> (r: Result<
        BuyOutcome,
        Error,
    >)
        requires
            old(self).wf(),
        ensures
            final(self).wf(),
            final(self).cfg == old(self).cfg && final(self).next_nft_id == old(self).next_nft_id
                && final(self).next_order_id == old(self).next_order_id,
            match r {
                Ok(outcome) => match old(self).orders.spec_get(order_id) {
                    Some(o) => {
                        &&& !time_err(o, now)
                        &&& !expired(o, now)
                        &&& price >= o.start_price
                        &&& match old(self).bids.spec_get(order_id) {
                            Some(b) => b.price < price,
                            None => true,
                        }
                        &&& match outcome {
                            BuyOutcome::Accepted => {
                                &&& price < o.end_price
                                &&& old(self).ledger.free_of(who) >= price
                                &&& final(self).bids.spec_get(order_id) == Some(
                                    Bid { order_id, price, owner: who },
                                )
                                &&& forall|k: u64|
                                    k != order_id ==> final(self).bids.spec_get(k) == old(
                                        self,
                                    ).bids.spec_get(k)
                                &&& forall|a: u64|
                                    #[trigger] final(self).ledger.free_of(a) == old(
                                        self,
                                    ).ledger.free_of(a) - (if a == who {
                                        price as int
                                    } else {
                                        0
                                    }) + (match old(self).bids.spec_get(order_id) {
                                        Some(b) => if b.owner == a {
                                            b.price as int
                                        } else {
                                            0
                                        },
                                        None => 0,
                                    })
                                &&& forall|a: u64|
                                    #[trigger] final(self).ledger.reserved_of(a) == old(
                                        self,
                                    ).ledger.reserved_of(a) + (if a == who {
                                        price as int
                                    } else {
                                        0
                                    }) - (match old(self).bids.spec_get(order_id) {
                                        Some(b) => if b.owner == a {
                                            b.price as int
                                        } else {
                                            0
                                        },
                                        None => 0,
                                    })
                                &&& final(self).events@ == old(self).events@.push(
                                    Event::OrderBuy(who, Bid { order_id, price, owner: who }),
                                )
                                &&& final(self).orders == old(self).orders && final(self).nfts
                                    == old(self).nfts && final(self).nft_order == old(
                                    self,
                                ).nft_order && final(self).votes == old(self).votes
                            },
                            BuyOutcome::InstantBuy(report) => {
                                &&& price >= o.end_price
                                &&& alloc_spec(
                                    old(self).cfg,
                                    o.keep_block_num,
                                    o.end_price,
                                    old(self).votes@.filter(on_order(order_id)),
                                ) == Some(report@)
                                &&& final(self).orders.spec_get(order_id) is None
                                &&& forall|k: u64|
                                    k != order_id ==> final(self).orders.spec_get(k) == old(
                                        self,
                                    ).orders.spec_get(k)
                                &&& final(self).nft_order.spec_get(o.nft_id) is None
                                &&& final(self).bids.spec_get(order_id) is None
                                &&& final(self).votes@ == old(self).votes@.filter(
                                    off_order(order_id),
                                )
                                &&& match final(self).nfts.spec_get(o.nft_id) {
                                    Some(rec2) => rec2.owner == who,
                                    None => false,
                                }
                                &&& forall|a: u64|
                                    #[trigger] final(self).ledger.free_of(a) == old(
                                        self,
                                    ).ledger.free_of(a) - (if a == who {
                                        o.end_price as int
                                    } else {
                                        0
                                    }) + (if a == o.owner {
                                        o.end_price as int
                                    } else {
                                        0
                                    }) + (match old(self).bids.spec_get(order_id) {
                                        Some(b) => if b.owner == a {
                                            b.price as int
                                        } else {
                                            0
                                        },
                                        None => 0,
                                    }) + votes_refund(old(self).votes@, order_id, a)
                                &&& forall|a: u64|
                                    #[trigger] final(self).ledger.reserved_of(a) == old(
                                        self,
                                    ).ledger.reserved_of(a) - (match old(self).bids.spec_get(
                                        order_id,
                                    ) {
                                        Some(b) => if b.owner == a {
                                            b.price as int
                                        } else {
                                            0
                                        },
                                        None => 0,
                                    }) - votes_refund(old(self).votes@, order_id, a)
                                &&& final(self).events@ == old(self).events@.push(
                                    Event::OrderComplete(who, order_id, o.end_price),
                                )
                            },
                        }
                    },
                    None => false,
                },
                Err(e) => {
                    &&& *final(self) == *old(self)
                    &&& match old(self).orders.spec_get(order_id) {
                        None => e == Error::NotFound,
                        Some(o) => if time_err(o, now) {
                            e == Error::ArithmeticOverflow
                        } else if expired(o, now) {
                            e == Error::TooLate
                        } else if price < o.start_price {
                            e == Error::PriceBelowFloor
                        } else if (match old(self).bids.spec_get(order_id) {
                            Some(b) => b.price >= price,
                            None => false,
                        }) {
                            e == Error::PriceNotIncreasing
                        } else if price >= o.end_price {
                            if alloc_spec(
                                old(self).cfg,
                                o.keep_block_num,
                                o.end_price,
                                old(self).votes@.filter(on_order(order_id)),
                            ) is None {
                                e == Error::ArithmeticOverflow
                            } else if old(self).ledger.free_of(who) < o.end_price {
                                e == Error::InsufficientFunds
                            } else {
                                e == Error::ArithmeticOverflow && who != o.owner && old(
                                    self,
                                ).ledger.free_of(o.owner) + old(self).ledger.reserved_of(o.owner)
                                    + o.end_price > u64::MAX
                            }
                        } else {
                            e == Error::InsufficientFunds && old(self).ledger.free_of(who) < price
                        },
                    }
                },
            },
    {
        let order = match self.orders.get(order_id) {
            Some(o) => *o,
            None => {
                return Err(Error::NotFound);
            },
        };
        proof {
            let j = lemma_seq_get_index(self.orders.entries(), order_id);
            assert(self.order_entry_ok(self.orders.entries()[j]));
            assert(order.order_id == order_id);
        }
        match Self::is_time_to_settlement(&order, now) {
            Ok(true) => {
                return Err(Error::TooLate);
            },
            Ok(false) => {},
            Err(e) => {
                return Err(e);
            },
        }
        if price < order.start_price {
            return Err(Error::PriceBelowFloor);
        }
        let prior = self.bid(order_id);
        match prior {
            Some(b) => {
                if b.price >= price {
                    return Err(Error::PriceNotIncreasing);
                }
            },
            None => {},
        }
        if price >= order.end_price {
            // instant buy: the order clears at the ceiling price
            let my_votes = self.votes_of(order_id);
            match allocate(&self.cfg, order.keep_block_num, order.end_price, &my_votes) {
                Ok(_) => {},
                Err(e) => {
                    return Err(e);
                },
            }
            if self.ledger.free_balance(who) < order.end_price {
                return Err(Error::InsufficientFunds);
            }
            if who != order.owner {
                let f = self.ledger.free_balance(order.owner);
                let rr = self.ledger.reserved_balance(order.owner);
                if (f as u128) + (rr as u128) + (order.end_price as u128) > (u64::MAX as u128) {
                    return Err(Error::ArithmeticOverflow);
                }
            }
            self.clean_order_bid(order_id);
            let report = self.order_complete(order, who, order.end_price, who);
            Ok(BuyOutcome::InstantBuy(report))
        } else {
            // join the auction: lock the new bidder's funds, then swap bids
            match self.ledger.reserve(who, price) {
                Ok(_) => {},
                Err(e) => {
                    return Err(e);
                },
            }
            proof {
                let pre = *old(self);
                match pre.bids.spec_get(order_id) {
                    Some(b) => {
                        let i = lemma_seq_get_index(pre.bids.entries(), order_id);
                        lemma_seq_sum_ge_elem(pre.bids.entries(), bid_contrib(b.owner), i);
                        lemma_seq_sum_nonneg(pre.votes@, vote_contrib(b.owner));
                        assert(self.ledger.reserved_of(b.owner) >= b.price);
                    },
                    None => {},
                }
            }
            let ghost mid1 = *self;
            Self::clean_bid(&mut self.bids, &mut self.ledger, order_id);
            let ghost mid2 = *self;
            let bid = Bid { order_id, price, owner: who };
            self.bids.put_new(order_id, bid);
            self.events.push(Event::OrderBuy(who, bid));
            proof {
                let pre = *old(self);
                assert forall|i: int| 0 <= i < self.bids.entries().len() implies self.bid_entry_ok(
                    #[trigger] self.bids.entries()[i],
                ) by {
                    let e = self.bids.entries()[i];
                    crate::kv::lemma_seq_get_present(self.bids.entries(), e.0, i);
                    assert(self.bids.spec_get(e.0) == Some(e.1));
                    if e.0 == order_id {
                        assert(e.1 == bid);
                    } else {
                        assert(self.bids.spec_get(e.0) == pre.bids.spec_get(e.0));
                        let j = lemma_seq_get_index(pre.bids.entries(), e.0);
                        assert(pre.bid_entry_ok(pre.bids.entries()[j]));
                    }
                }
                assert forall|i: int|
                    0 <= i < self.orders.entries().len() implies self.order_entry_ok(
                    #[trigger] self.orders.entries()[i],
                ) by {
                    assert(pre.order_entry_ok(pre.orders.entries()[i]));
                }
                assert forall|i: int|
                    0 <= i < self.nft_order.entries().len() implies self.index_entry_ok(
                    #[trigger] self.nft_order.entries()[i],
                ) by {
                    assert(pre.index_entry_ok(pre.nft_order.entries()[i]));
                }
                assert forall|i: int| 0 <= i < self.votes@.len() implies self.vote_ok(
                    #[trigger] self.votes@[i],
                ) by {
                    assert(pre.vote_ok(pre.votes@[i]));
                }
                assert forall|a: u64| #[trigger] self.ledger.reserved_of(a) == bids_locked(
                    self.bids.entries(),
                    a,
                ) + votes_locked(self.votes@, a) by {
                    lemma_seq_sum_push(mid2.bids.entries(), bid_contrib(a), (order_id, bid));
                    assert(mid2.ledger.reserved_of(a) - bids_locked(mid2.bids.entries(), a)
                        == mid1.ledger.reserved_of(a) - bids_locked(mid1.bids.entries(), a));
                    assert(pre.ledger.reserved_of(a) == bids_locked(pre.bids.entries(), a)
                        + votes_locked(pre.votes@, a));
                }
            }
            Ok(BuyOutcome::Accepted)
        }
    }

    /// Settle an expired order: with a live bid it completes at that bid's
    /// price; without one it is cancelled, the seller keeping the asset.
    /// Settlement is permissionless: `who` needs no privilege.
    pub fn order_settlement(&mut self, who: u64, order_id: u64, now: u64) -> (r: Result<
        SettleOutcome,
        Error,
    >)
        requires
            old(self).wf(),
        ensures
            final(self).wf(),
            final(self).cfg == old(self).cfg && final(self).next_nft_id == old(self).next_nft_id
                && final(self).next_order_id == old(self).next_order_id,
            match r {
                Ok(outcome) => match old(self).orders.spec_get(order_id) {
                    Some(o) => {
                        &&& !time_err(o, now)
                        &&& expired(o, now)
                        &&& final(self).orders.spec_get(order_id) is None
                        &&& forall|k: u64|
                            k != order_id ==> final(self).orders.spec_get(k) == old(
                                self,
                            ).orders.spec_get(k)
                        &&& final(self).nft_order.spec_get(o.nft_id) is None
                        &&& final(self).bids.spec_get(order_id) is None
                        &&& final(self).votes@ == old(self).votes@.filter(off_order(order_id))
                        &&& match outcome {
                            SettleOutcome::Completed(report) => match old(self).bids.spec_get(
                                order_id,
                            ) {
                                Some(b) => {
                                    &&& alloc_spec(
                                        old(self).cfg,
                                        o.keep_block_num,
                                        b.price,
                                        old(self).votes@.filter(on_order(order_id)),
                                    ) == Some(report@)
                                    &&& match final(self).nfts.spec_get(o.nft_id) {
                                        Some(rec2) => rec2.owner == b.owner,
                                        None => false,
                                    }
                                    &&& forall|a: u64|
                                        #[trigger] final(self).ledger.free_of(a) == old(
                                            self,
                                        ).ledger.free_of(a) + (if a == o.owner {
                                            b.price as int
                                        } else {
                                            0
                                        }) + votes_refund(old(self).votes@, order_id, a)
                                    &&& forall|a: u64|
                                        #[trigger] final(self).ledger.reserved_of(a) == old(
                                            self,
                                        ).ledger.reserved_of(a) - (if a == b.owner {
                                            b.price as int
                                        } else {
                                            0
                                        }) - votes_refund(old(self).votes@, order_id, a)
                                    &&& final(self).events@ == old(self).events@.push(
                                        Event::OrderComplete(b.owner, order_id, b.price),
                                    )
                                },
                                None => false,
                            },
                            SettleOutcome::Cancelled => {
                                &&& old(self).bids.spec_get(order_id) is None
                                &&& final(self).nfts == old(self).nfts
                                &&& forall|a: u64|
                                    #[trigger] final(self).ledger.free_of(a) == old(
                                        self,
                                    ).ledger.free_of(a) + votes_refund(
                                        old(self).votes@,
                                        order_id,
                                        a,
                                    )
                                &&& forall|a: u64|
                                    #[trigger] final(self).ledger.reserved_of(a) == old(
                                        self,
                                    ).ledger.reserved_of(a) - votes_refund(
                                        old(self).votes@,
                                        order_id,
                                        a,
                                    )
                                &&& final(self).events@ == old(self).events@.push(
                                    Event::OrderCancel(o.owner, order_id),
                                )
                            },
                        }
                    },
                    None => false,
                },
                Err(e) => {
                    &&& *final(self) == *old(self)
                    &&& match old(self).orders.spec_get(order_id) {
                        None => e == Error::NotFound,
                        Some(o) => if time_err(o, now) {
                            e == Error::ArithmeticOverflow
                        } else if !expired(o, now) {
                            e == Error::TooEarly
                        } else {
                            match old(self).bids.spec_get(order_id) {
                                Some(b) => if alloc_spec(
                                    old(self).cfg,
                                    o.keep_block_num,
                                    b.price,
                                    old(self).votes@.filter(on_order(order_id)),
                                ) is None {
                                    e == Error::ArithmeticOverflow
                                } else {
                                    e == Error::ArithmeticOverflow && b.owner != o.owner && old(
                                        self,
                                    ).ledger.free_of(o.owner) + old(self).ledger.reserved_of(
                                        o.owner,
                                    ) + b.price > u64::MAX
                                },
                                None => false,
                            }
                        },
                    }
                },
            },
    {
        let order = match self.orders.get(order_id) {
            Some(o) => *o,
            None => {
                return Err(Error::NotFound);
            },
        };
        proof {
            let j = lemma_seq_get_index(self.orders.entries(), order_id);
            assert(self.order_entry_ok(self.orders.entries()[j]));
            assert(order.order_id == order_id);
        }
        match Self::is_time_to_settlement(&order, now) {
            Ok(false) => {
                return Err(Error::TooEarly);
            },
            Ok(true) => {},
            Err(e) => {
                return Err(e);
            },
        }
        match self.bid(order_id) {
            Some(bid) => {
                let my_votes = self.votes_of(order_id);
                match allocate(&self.cfg, order.keep_block_num, bid.price, &my_votes) {
                    Ok(_) => {},
                    Err(e) => {
                        return Err(e);
                    },
                }
                if bid.owner != order.owner {
                    let f = self.ledger.free_balance(order.owner);
                    let rr = self.ledger.reserved_balance(order.owner);
                    if (f as u128) + (rr as u128) + (bid.price as u128) > (u64::MAX as u128) {
                        return Err(Error::ArithmeticOverflow);
                    }
                }
                proof {
                    old(self).ledger.lemma_balances_nonneg(bid.owner);
                }
                self.clean_order_bid(order_id);
                let report = self.order_complete(order, bid.owner, bid.price, who);
                Ok(SettleOutcome::Completed(report))
            },
            None => {
                self.purge_order(order);
                self.events.push(Event::OrderCancel(order.owner, order_id));
                Ok(SettleOutcome::Cancelled)
            },
        }
    }

    /// Compute the settlement report for a clearing price over a stake
    /// list: the diminishing-rate profit-sharing curve of the yield
    /// allocator. Purely informational: no ledger mutation.
    pub fn algorithm(&self, order: &Order, bid_price: u64, inputs: &Vec<Vote>) -> (r: Result<
        Vec<YieldRecord>,
        Error,
    >)
        ensures
            match r {
                Ok(report) => alloc_spec(self.cfg, order.keep_block_num, bid_price, inputs@)
                    == Some(report@),
                Err(e) => e == Error::ArithmeticOverflow && alloc_spec(
                    self.cfg,
                    order.keep_block_num,
                    bid_price,
                    inputs@,
                ) is None,
            },
    {
        allocate(&self.cfg, order.keep_block_num, bid_price, inputs)
    }
}


/// Law (listing invariants): every live order's floor is at or under its
/// ceiling and at or above the configured minimum price, and its window
/// lies within the configured duration bounds. Violating listings are
/// rejected by `order_sell` and create no order.
pub proof fn lemma_listed_order_well_formed(m: Module, order_id: u64)
    requires
        m.wf(),
        m.orders.spec_get(order_id) is Some,
    ensures
        ({
            let o = m.orders.spec_get(order_id)->Some_0;
            &&& o.order_id == order_id
            &&& o.start_price >= m.cfg.minimum_price
            &&& o.start_price <= o.end_price
            &&& m.cfg.min_keep_block_num <= o.keep_block_num <= m.cfg.max_keep_block_num
        }),
{
    let j = lemma_seq_get_index(m.orders.entries(), order_id);
    assert(m.order_entry_ok(m.orders.entries()[j]));
}

/// Law (bid invariants): an order has at most one live bid — the bid
/// table is keyed by order id — and that bid belongs to a live order,
/// priced at or above the order's floor and strictly under its ceiling.
/// `order_buy` only ever accepts a bid that strictly exceeds the live one.
pub proof fn lemma_live_bid_well_formed(m: Module, order_id: u64)
    requires
        m.wf(),
        m.bids.spec_get(order_id) is Some,
    ensures
        m.orders.spec_get(order_id) is Some,
        ({
            let b = m.bids.spec_get(order_id)->Some_0;
            let o = m.orders.spec_get(order_id)->Some_0;
            &&& b.order_id == order_id
            &&& o.start_price <= b.price < o.end_price
        }),
{
    let j = lemma_seq_get_index(m.bids.entries(), order_id);
    assert(m.bid_entry_ok(m.bids.entries()[j]));
}

/// Law (locked-funds conservation): at all times, the funds reserved from
/// an account are exactly the prices of its live bids plus the amounts of
/// its live stakes. In particular a replaced bid's lock is released in
/// the same step that the new bid's lock is taken: outstanding locks
/// never hold the old and the new price together.
pub proof fn lemma_reserved_accounting(m: Module, a: u64)
    requires
        m.wf(),
    ensures
        m.ledger.reserved_of(a) == bids_locked(m.bids.entries(), a) + votes_locked(m.votes@, a),
{
}



} // verus!
