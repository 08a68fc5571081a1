//! The ledger: free and reserved balances per account, with
//! reserve / unreserve / transfer primitives. Every operation either
//! applies in full or fails and changes nothing.

use vstd::prelude::*;
use crate::errors::Error;
use crate::kv::KvStore;

verus! {

/// One account's balances. The invariant `free + reserved <= u64::MAX`
/// keeps every internal move between the two halves overflow-free.
#[derive(Clone, Copy, Debug, PartialEq, Eq, Structural)]
pub struct AccountData {
    pub free: u64,
    pub reserved: u64,
}

/// Free and reserved balances for every account; absent accounts hold
/// nothing.
pub struct Ledger {
    accounts: KvStore<AccountData>,
}

impl Ledger {
    /// Well-formedness: distinct account keys, and each account's total
    /// balance fits in the balance type.
    pub closed spec fn wf(&self) -> bool {
        &&& self.accounts.wf()
        &&& forall|a: u64|
            match #[trigger] self.accounts.spec_get(a) {
                Some(d) => d.free + d.reserved <= u64::MAX,
                None => true,
            }
    }

    /// Account `a`'s free balance.
    pub closed spec fn free_of(&self, a: u64) -> int {
        match self.accounts.spec_get(a) {
            Some(d) => d.free as int,
            None => 0,
        }
    }

    /// Account `a`'s reserved balance.
    pub closed spec fn reserved_of(&self, a: u64) -> int {
        match self.accounts.spec_get(a) {
            Some(d) => d.reserved as int,
            None => 0,
        }
    }

    /// Balances are never negative.
    pub proof fn lemma_balances_nonneg(&self, a: u64)
        ensures
            self.free_of(a) >= 0,
            self.reserved_of(a) >= 0,
    {
    }

    /// An empty ledger.
    pub fn new() -> (r: Self)
        ensures
            r.wf(),
            forall|a: u64| r.free_of(a) == 0 && r.reserved_of(a) == 0,
    {
        let l = Ledger { accounts: KvStore::new() };
        proof {
            assert forall|a: u64| l.free_of(a) == 0 && l.reserved_of(a) == 0 by {
                crate::kv::lemma_seq_get_absent(l.accounts.entries(), a);
            }
        }
        l
    }

    /// Account `a`'s free balance.
    pub fn free_balance(&self, a: u64) -> (r: u64)
        requires
            self.wf(),
        ensures
            r == self.free_of(a),
    {
        match self.accounts.get(a) {
            Some(d) => d.free,
            None => 0,
        }
    }

    /// Account `a`'s reserved balance.
    pub fn reserved_balance(&self, a: u64) -> (r: u64)
        requires
            self.wf(),
        ensures
            r == self.reserved_of(a),
    {
        match self.accounts.get(a) {
            Some(d) => d.reserved,
            None => 0,
        }
    }

    /// Write `d` as account `a`'s balances, creating the account if absent.
    fn write_account(&mut self, a: u64, d: AccountData)
        requires
            old(self).wf(),
            d.free + d.reserved <= u64::MAX,
        ensures
            final(self).wf(),
            final(self).free_of(a) == d.free,
            final(self).reserved_of(a) == d.reserved,
            forall|a2: u64|
                a2 != a ==> final(self).free_of(a2) == old(self).free_of(a2)
                    && final(self).reserved_of(a2) == old(self).reserved_of(a2),
    {
        if self.accounts.contains(a) {
            self.accounts.set(a, d);
        } else {
            self.accounts.put_new(a, d);
        }
    }

    /// Add `amount` to `a`'s free balance (an endowment from outside the
    /// market). Fails `ArithmeticOverflow` if the account's total balance
    /// would no longer fit.
    pub fn deposit(&mut self, a: u64, amount: u64) -> (r: Result<(), Error>)
        requires
            old(self).wf(),
        ensures
            final(self).wf(),
            r is Ok <==> old(self).free_of(a) + old(self).reserved_of(a) + amount <= u64::MAX,
            r is Ok ==> final(self).free_of(a) == old(self).free_of(a) + amount
                && final(self).reserved_of(a) == old(self).reserved_of(a),
            r matches Err(e) ==> e == Error::ArithmeticOverflow && *final(self) == *old(self),
            forall|a2: u64|
                a2 != a ==> final(self).free_of(a2) == old(self).free_of(a2)
                    && final(self).reserved_of(a2) == old(self).reserved_of(a2),
    {
        let free = self.free_balance(a);
        let reserved = self.reserved_balance(a);
        if amount <= u64::MAX - reserved && free <= u64::MAX - reserved - amount {
            self.write_account(a, AccountData { free: free + amount, reserved });
            Ok(())
        } else {
            Err(Error::ArithmeticOverflow)
        }
    }

    /// Move `amount` of `a`'s free balance into reserve. Fails
    /// `InsufficientFunds` if the free balance is smaller.
    pub fn reserve(&mut self, a: u64, amount: u64) -> (r: Result<(), Error>)
        requires
            old(self).wf(),
        ensures
            final(self).wf(),
            r is Ok <==> old(self).free_of(a) >= amount,
            r is Ok ==> final(self).free_of(a) == old(self).free_of(a) - amount
                && final(self).reserved_of(a) == old(self).reserved_of(a) + amount,
            r matches Err(e) ==> e == Error::InsufficientFunds && *final(self) == *old(self),
            forall|a2: u64|
                a2 != a ==> final(self).free_of(a2) == old(self).free_of(a2)
                    && final(self).reserved_of(a2) == old(self).reserved_of(a2),
    {
        let free = self.free_balance(a);
        let reserved = self.reserved_balance(a);
        if free >= amount {
            self.write_account(a, AccountData { free: free - amount, reserved: reserved + amount });
            Ok(())
        } else {
            Err(Error::InsufficientFunds)
        }
    }

    /// Release reserved balance back to free: moves `amount`, or whatever
    /// smaller part of it is actually reserved, and returns the moved sum.
    pub fn unreserve(&mut self, a: u64, amount: u64) -> (moved: u64)
        requires
            old(self).wf(),
        ensures
            final(self).wf(),
            moved == if amount <= old(self).reserved_of(a) {
                amount as int
            } else {
                old(self).reserved_of(a)
            },
            final(self).reserved_of(a) == old(self).reserved_of(a) - moved,
            final(self).free_of(a) == old(self).free_of(a) + moved,
            forall|a2: u64|
                a2 != a ==> final(self).free_of(a2) == old(self).free_of(a2)
                    && final(self).reserved_of(a2) == old(self).reserved_of(a2),
    {
        let free = self.free_balance(a);
        let reserved = self.reserved_balance(a);
        let moved = if amount <= reserved {
            amount
        } else {
            reserved
        };
        self.write_account(a, AccountData { free: free + moved, reserved: reserved - moved });
        moved
    }

    /// Move `amount` from `from`'s free balance to `to`'s free balance.
    /// Fails `InsufficientFunds` if `from`'s free balance is smaller, and
    /// `ArithmeticOverflow` if `to`'s total balance would no longer fit.
    pub fn transfer(&mut self, from: u64, to: u64, amount: u64) -> (r: Result<(), Error>)
        requires
            old(self).wf(),
        ensures
            final(self).wf(),
            r is Ok <==> old(self).free_of(from) >= amount && (from == to || old(self).free_of(to)
                + old(self).reserved_of(to) + amount <= u64::MAX),
            r is Ok && from != to ==> final(self).free_of(from) == old(self).free_of(from) - amount
                && final(self).free_of(to) == old(self).free_of(to) + amount,
            r is Ok && from == to ==> *final(self) == *old(self),
            r is Err ==> *final(self) == *old(self),
            r matches Err(e) ==> (e == Error::InsufficientFunds && old(self).free_of(from) < amount)
                || (e == Error::ArithmeticOverflow && old(self).free_of(from) >= amount),
            forall|a2: u64| final(self).reserved_of(a2) == old(self).reserved_of(a2),
            forall|a2: u64|
                a2 != from && a2 != to ==> final(self).free_of(a2) == old(self).free_of(a2),
    {
        let free_from = self.free_balance(from);
        if free_from < amount {
            return Err(Error::InsufficientFunds);
        }
        if from == to {
            return Ok(());
        }
        let free_to = self.free_balance(to);
        let reserved_to = self.reserved_balance(to);
        if !(amount <= u64::MAX - reserved_to && free_to <= u64::MAX - reserved_to - amount) {
            return Err(Error::ArithmeticOverflow);
        }
        let reserved_from = self.reserved_balance(from);
        self.write_account(from, AccountData { free: free_from - amount, reserved: reserved_from });
        self.write_account(to, AccountData { free: free_to + amount, reserved: reserved_to });
        Ok(())
    }
}

} // verus!
