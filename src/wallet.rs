use vstd::prelude::*;
use std::collections::HashMap;
use crate::transaction::{
    Amount, Client, Failure, FailureView, TransactionId, failure_of, insufficient_funds_reason,
    settle_not_found_reason, charge_back_not_found_reason,
};

verus! {

broadcast use vstd::std_specs::hash::group_hash_axioms;

/// Whether a value fits a signed 64-bit balance field.
pub open spec fn fits(x: int) -> bool {
    i64::MIN <= x <= i64::MAX
}

/// The three balances of an account.
#[derive(Clone, Copy, Debug, PartialEq, Eq, Structural)]
pub struct Balance {
    pub available: Amount,
    pub held: Amount,
    pub total: Amount,
}

impl Balance {
    fn new() -> (r: Balance)
        ensures
            r.available@ == 0,
            r.held@ == 0,
            r.total@ == 0,
    {
        Balance { available: Amount::zero(), held: Amount::zero(), total: Amount::zero() }
    }
}

/// An account as a mathematical value.
pub ghost struct WalletView {
    pub client: u16,
    pub available: int,
    pub held: int,
    pub total: int,
    pub locked: bool,
    pub disputes: Map<u32, Amount>,
}

impl WalletView {
    pub open spec fn wf(self) -> bool {
        &&& self.total == self.available + self.held
        &&& fits(self.available)
        &&& fits(self.held)
        &&& fits(self.total)
    }

    /// The same account with its balances moved by the given deltas.
    pub open spec fn shifted(self, d_available: int, d_held: int, d_total: int) -> WalletView {
        WalletView {
            available: self.available + d_available,
            held: self.held + d_held,
            total: self.total + d_total,
            ..self
        }
    }

    pub open spec fn can_shift(self, d_available: int, d_held: int, d_total: int) -> bool {
        &&& fits(self.available + d_available)
        &&& fits(self.held + d_held)
        &&& fits(self.total + d_total)
    }

    pub open spec fn deposited(self, amount: int) -> WalletView {
        self.shifted(amount, 0, amount)
    }

    pub open spec fn withdrawn(self, amount: int) -> WalletView {
        self.shifted(-amount, 0, -amount)
    }

    pub open spec fn disputed(self, tx: u32, amount: Amount) -> WalletView {
        WalletView { disputes: self.disputes.insert(tx, amount), ..self.shifted(-amount@, amount@, 0) }
    }

    /// Releases a disputed amount back to the available funds and closes the dispute.
    pub open spec fn settled(self, tx: u32) -> WalletView {
        let a = self.disputes[tx]@;
        WalletView { disputes: self.disputes.remove(tx), ..self.shifted(a, -a, 0) }
    }

    /// Removes a disputed amount from the account, closes the dispute and locks it.
    pub open spec fn charged_back(self, tx: u32) -> WalletView {
        let a = self.disputes[tx]@;
        WalletView { disputes: self.disputes.remove(tx), locked: true, ..self.shifted(0, -a, -a) }
    }

    pub open spec fn new_for(client: u16) -> WalletView {
        WalletView {
            client,
            available: 0,
            held: 0,
            total: 0,
            locked: false,
            disputes: Map::empty(),
        }
    }
}

/// One client's account.
///
/// Resolving or charging back a dispute closes it, so the same dispute cannot
/// be settled twice. The `locked` flag records that a chargeback happened; a
/// locked account still accepts further events.
#[derive(Debug)]
pub struct Wallet {
    pub client: Client,
    pub balance: Balance,
    pub locked: bool,
    pub open_disputes: HashMap<u32, Amount>,
}

impl View for Wallet {
    type V = WalletView;

    open spec fn view(&self) -> WalletView {
        WalletView {
            client: self.client.0,
            available: self.balance.available@,
            held: self.balance.held@,
            total: self.balance.total@,
            locked: self.locked,
            disputes: self.open_disputes@,
        }
    }
}

impl Wallet {
    pub open spec fn wf(&self) -> bool {
        self@.wf()
    }

    pub fn new(client: Client) -> (r: Wallet)
        ensures
            r@ == WalletView::new_for(client.0),
            r.wf(),
    {
        Wallet { client, balance: Balance::new(), locked: false, open_disputes: HashMap::new() }
    }

    /// Whether moving the balances by the given deltas keeps each of them in range.
    pub fn can_shift(&self, d_available: i128, d_held: i128, d_total: i128) -> (r: bool)
        requires
            -0x1_0000_0000_0000_0000 <= d_available <= 0x1_0000_0000_0000_0000,
            -0x1_0000_0000_0000_0000 <= d_held <= 0x1_0000_0000_0000_0000,
            -0x1_0000_0000_0000_0000 <= d_total <= 0x1_0000_0000_0000_0000,
        ensures
            r == self@.can_shift(d_available as int, d_held as int, d_total as int),
    {
        let lo = i64::MIN as i128;
        let hi = i64::MAX as i128;
        let a = self.balance.available.units as i128 + d_available;
        let h = self.balance.held.units as i128 + d_held;
        let t = self.balance.total.units as i128 + d_total;
        lo <= a && a <= hi && lo <= h && h <= hi && lo <= t && t <= hi
    }

    /// Adds `amount` to the available and total funds.
    pub fn deposit(&mut self, _tx: TransactionId, amount: Amount)
        requires
            old(self).wf(),
            old(self)@.can_shift(amount@, 0, amount@),
        ensures
            final(self)@ == old(self)@.deposited(amount@),
            final(self).wf(),
    {
        self.balance.available = Amount { units: self.balance.available.units + amount.units };
        self.balance.total = Amount { units: self.balance.total.units + amount.units };
    }

    /// Moves `amount` from the available to the held funds and records the dispute.
    pub fn dispute(&mut self, tx: TransactionId, amount: Amount)
        requires
            old(self).wf(),
            old(self)@.can_shift(-amount@, amount@, 0),
        ensures
            final(self)@ == old(self)@.disputed(tx.0, amount),
            final(self).wf(),
    {
        self.balance.available = Amount { units: self.balance.available.units - amount.units };
        self.balance.held = Amount { units: self.balance.held.units + amount.units };
        self.open_disputes.insert(tx.0, amount);
    }

    /// Takes `amount` out of the available and total funds if enough is available.
    pub fn withdraw(&mut self, tx: TransactionId, amount: Amount) -> (r: Result<(), Failure>)
        requires
            old(self).wf(),
            old(self)@.available >= amount@ ==> old(self)@.can_shift(-amount@, 0, -amount@),
        ensures
            final(self).wf(),
            old(self)@.available >= amount@ ==> r is Ok && final(self)@ == old(self)@.withdrawn(amount@),
            old(self)@.available < amount@ ==> final(self)@ == old(self)@ && (r matches Err(e)
                && e@ == failure_of(old(self).client.0, tx.0, insufficient_funds_reason())),
    {
        if self.balance.available.units >= amount.units {
            self.balance.available = Amount { units: self.balance.available.units - amount.units };
            self.balance.total = Amount { units: self.balance.total.units - amount.units };
            Ok(())
        } else {
            Err(Failure::insufficient_funds(self.client, tx))
        }
    }

    /// Returns a disputed amount to the available funds and closes the dispute.
    pub fn settle_dispute(&mut self, tx: TransactionId) -> (r: Result<(), Failure>)
        requires
            old(self).wf(),
            old(self)@.disputes.contains_key(tx.0) ==> {
                let a = old(self)@.disputes[tx.0]@;
                old(self)@.can_shift(a, -a, 0)
            },
        ensures
            final(self).wf(),
            old(self)@.disputes.contains_key(tx.0) ==> r is Ok && final(self)@ == old(self)@.settled(tx.0),
            !old(self)@.disputes.contains_key(tx.0) ==> final(self)@ == old(self)@ && (r matches Err(e)
                && e@ == failure_of(old(self).client.0, tx.0, settle_not_found_reason())),
    {
        match self.open_disputes.remove(&tx.0) {
            Some(disputed) => {
                self.balance.held = Amount { units: self.balance.held.units - disputed.units };
                self.balance.available = Amount { units: self.balance.available.units + disputed.units };
                Ok(())
            },
            None => {
                proof {
                    assert(self.open_disputes@ =~= old(self).open_disputes@);
                }
                Err(Failure::new(
                self.client,
                tx,
                    "Disputed transaction not found for settlement!".to_owned(),
                ))
            },
        }
    }

    /// Removes a disputed amount from the held and total funds, closes the dispute
    /// and locks the account.
    pub fn charge_back(&mut self, tx: TransactionId) -> (r: Result<(), Failure>)
        requires
            old(self).wf(),
            old(self)@.disputes.contains_key(tx.0) ==> {
                let a = old(self)@.disputes[tx.0]@;
                old(self)@.can_shift(0, -a, -a)
            },
        ensures
            final(self).wf(),
            old(self)@.disputes.contains_key(tx.0) ==> r is Ok && final(self)@ == old(self)@.charged_back(tx.0),
            !old(self)@.disputes.contains_key(tx.0) ==> final(self)@ == old(self)@ && (r matches Err(e)
                && e@ == failure_of(old(self).client.0, tx.0, charge_back_not_found_reason())),
    {
        match self.open_disputes.remove(&tx.0) {
            Some(disputed) => {
                self.balance.held = Amount { units: self.balance.held.units - disputed.units };
                self.balance.total = Amount { units: self.balance.total.units - disputed.units };
                self.locked = true;
                Ok(())
            },
            None => {
                proof {
                    assert(self.open_disputes@ =~= old(self).open_disputes@);
                }
                Err(Failure::new(
                self.client,
                tx,
                    "Disputed transaction not found for charge back!".to_owned(),
                ))
            },
        }
    }
}

} // verus!
