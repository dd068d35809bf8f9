use vstd::prelude::*;
use std::collections::HashMap;
use dashmap::DashMap;
use crate::transaction::{
    Amount, Client, Failure, FailureView, Transaction, TransactionId, failure_of,
    insufficient_funds_reason, no_wallet_reason, settle_not_found_reason,
    charge_back_not_found_reason, dispute_withdrawal_reason, dispute_not_found_reason,
    out_of_range_reason,
};
use crate::wallet::{Wallet, WalletView};

verus! {

broadcast use vstd::std_specs::hash::group_hash_axioms;

#[verifier::external_type_specification]
#[verifier::external_body]
#[verifier::reject_recursive_types(K)]
#[verifier::reject_recursive_types(V)]
#[verifier::reject_recursive_types(S)]
pub struct ExDashMap<K, V, S>(DashMap<K, V, S>);

/// The accounts held by a concurrent account table, by client id.
pub uninterp spec fn wallet_table(m: DashMap<u16, Wallet>) -> Map<u16, Wallet>;

/// The journals held by a concurrent journal table, by client id.
pub uninterp spec fn journal_table(m: DashMap<u16, HashMap<u32, Transaction>>) -> Map<
    u16,
    HashMap<u32, Transaction>,
>;

/// Relies on `DashMap::new`: a new map is empty.
#[verifier::external_body]
fn new_wallet_table() -> (r: DashMap<u16, Wallet>)
    ensures
        wallet_table(r).dom().is_empty(),
{
    DashMap::new()
}

/// Relies on `DashMap::remove`: takes the entry of `k` out of the map and hands
/// over its value, or leaves the map as it is when `k` has no entry.
#[verifier::external_body]
fn take_wallet(m: &mut DashMap<u16, Wallet>, k: u16) -> (r: Option<Wallet>)
    ensures
        wallet_table(*old(m)).contains_key(k) ==> r == Some(wallet_table(*old(m))[k]),
        !wallet_table(*old(m)).contains_key(k) ==> r is None,
        wallet_table(*final(m)) == wallet_table(*old(m)).remove(k),
{
    m.remove(&k).map(|(_, w)| w)
}

/// Relies on `DashMap::insert`: afterwards `k` maps to `w`, other entries unchanged.
#[verifier::external_body]
fn put_wallet(m: &mut DashMap<u16, Wallet>, k: u16, w: Wallet)
    ensures
        wallet_table(*final(m)) == wallet_table(*old(m)).insert(k, w),
{
    m.insert(k, w);
}

/// Relies on `DashMap::into_iter`: yields each entry of the map exactly once.
#[verifier::external_body]
fn drain_wallets(m: DashMap<u16, Wallet>) -> (r: Vec<Wallet>)
    ensures
        r@.len() == wallet_table(m).len(),
        forall|i: int|
            #![trigger r@[i]]
            0 <= i < r@.len() ==> exists|k: u16|
                #![trigger wallet_table(m)[k]]
                wallet_table(m).contains_key(k) && wallet_table(m)[k] == r@[i],
        forall|k: u16|
            #![trigger wallet_table(m)[k]]
            wallet_table(m).contains_key(k) ==> exists|i: int|
                #![trigger r@[i]]
                0 <= i < r@.len() && r@[i] == wallet_table(m)[k],
{
    m.into_iter().map(|(_, w)| w).collect()
}

/// Relies on `DashMap::new`: a new map is empty.
#[verifier::external_body]
fn new_journal_table() -> (r: DashMap<u16, HashMap<u32, Transaction>>)
    ensures
        journal_table(r).dom().is_empty(),
{
    DashMap::new()
}

/// Relies on `DashMap::remove`: takes the entry of `k` out of the map and hands
/// over its value, or leaves the map as it is when `k` has no entry.
#[verifier::external_body]
fn take_journal(m: &mut DashMap<u16, HashMap<u32, Transaction>>, k: u16) -> (r: Option<
    HashMap<u32, Transaction>,
>)
    ensures
        journal_table(*old(m)).contains_key(k) ==> r == Some(journal_table(*old(m))[k]),
        !journal_table(*old(m)).contains_key(k) ==> r is None,
        journal_table(*final(m)) == journal_table(*old(m)).remove(k),
{
    m.remove(&k).map(|(_, j)| j)
}

/// Relies on `DashMap::insert`: afterwards `k` maps to `j`, other entries unchanged.
#[verifier::external_body]
fn put_journal(m: &mut DashMap<u16, HashMap<u32, Transaction>>, k: u16, j: HashMap<u32, Transaction>)
    ensures
        journal_table(*final(m)) == journal_table(*old(m)).insert(k, j),
{
    m.insert(k, j);
}

/// The whole ledger as a mathematical value: each known client's account, and
/// each client's journal of accepted deposits and withdrawals by transaction id.
#[verifier::ext_equal]
pub ghost struct LedgerView {
    pub wallets: Map<u16, WalletView>,
    pub journal: Map<u16, Map<u32, Transaction>>,
}

impl LedgerView {
    pub open spec fn empty() -> LedgerView {
        LedgerView { wallets: Map::empty(), journal: Map::empty() }
    }

    /// Every account is well formed and filed under its own client id.
    pub open spec fn wf(self) -> bool {
        forall|c: u16| #[trigger]
            self.wallets.contains_key(c) ==> self.wallets[c].wf() && self.wallets[c].client == c
    }

    /// The journaled event of client `c` with transaction id `tx`, if any.
    pub open spec fn journaled(self, c: u16, tx: u32) -> Option<Transaction> {
        if self.journal.contains_key(c) && self.journal[c].contains_key(tx) {
            Some(self.journal[c][tx])
        } else {
            None
        }
    }

    /// The journal with `t` recorded under client `c` and transaction id `tx`.
    pub open spec fn journal_with(self, c: u16, tx: u32, t: Transaction) -> Map<
        u16,
        Map<u32, Transaction>,
    > {
        let j = if self.journal.contains_key(c) {
            self.journal[c]
        } else {
            Map::empty()
        };
        self.journal.insert(c, j.insert(tx, t))
    }

    pub open spec fn with_wallet(self, c: u16, w: WalletView) -> LedgerView {
        LedgerView { wallets: self.wallets.insert(c, w), ..self }
    }
}

pub open spec fn result_view(r: Result<(), Failure>) -> Result<(), FailureView> {
    match r {
        Ok(()) => Ok(()),
        Err(e) => Err(e@),
    }
}

/// The effect of one event on the ledger, and whether it was accepted.
pub open spec fn apply_spec(l: LedgerView, t: Transaction) -> (LedgerView, Result<(), FailureView>) {
    let c = t.client_of().0;
    let tx = t.tx_of().0;
    let out_of_range = (l, Err(failure_of(c, tx, out_of_range_reason())));
    let no_wallet = (l, Err(failure_of(c, tx, no_wallet_reason())));
    match t {
        Transaction::Deposit { amount, .. } => {
            let a = amount@;
            let w = if l.wallets.contains_key(c) {
                l.wallets[c]
            } else {
                WalletView::new_for(c)
            };
            if w.can_shift(a, 0, a) {
                (
                    LedgerView { wallets: l.wallets.insert(c, w.deposited(a)), journal: l.journal_with(c, tx, t) },
                    Ok(()),
                )
            } else {
                out_of_range
            }
        },
        Transaction::Withdrawal { amount, .. } => {
            let a = amount@;
            if !l.wallets.contains_key(c) {
                no_wallet
            } else if l.wallets[c].available < a {
                (l, Err(failure_of(c, tx, insufficient_funds_reason())))
            } else if l.wallets[c].can_shift(-a, 0, -a) {
                (
                    LedgerView { wallets: l.wallets.insert(c, l.wallets[c].withdrawn(a)), journal: l.journal_with(c, tx, t) },
                    Ok(()),
                )
            } else {
                out_of_range
            }
        },
        Transaction::Dispute { .. } => match l.journaled(c, tx) {
            Some(Transaction::Deposit { amount, .. }) => {
                if !l.wallets.contains_key(c) {
                    no_wallet
                } else if l.wallets[c].can_shift(-amount@, amount@, 0) {
                    (l.with_wallet(c, l.wallets[c].disputed(tx, amount)), Ok(()))
                } else {
                    out_of_range
                }
            },
            Some(Transaction::Withdrawal { .. }) => (l, Err(failure_of(c, tx, dispute_withdrawal_reason()))),
            _ => (l, Err(failure_of(c, tx, dispute_not_found_reason()))),
        },
        Transaction::Resolve { .. } => {
            if !l.wallets.contains_key(c) {
                no_wallet
            } else if !l.wallets[c].disputes.contains_key(tx) {
                (l, Err(failure_of(c, tx, settle_not_found_reason())))
            } else if l.wallets[c].can_shift(l.wallets[c].disputes[tx]@, -l.wallets[c].disputes[tx]@, 0) {
                (l.with_wallet(c, l.wallets[c].settled(tx)), Ok(()))
            } else {
                out_of_range
            }
        },
        Transaction::ChargeBack { .. } => {
            if !l.wallets.contains_key(c) {
                no_wallet
            } else if !l.wallets[c].disputes.contains_key(tx) {
                (l, Err(failure_of(c, tx, charge_back_not_found_reason())))
            } else if l.wallets[c].can_shift(0, -l.wallets[c].disputes[tx]@, -l.wallets[c].disputes[tx]@) {
                (l.with_wallet(c, l.wallets[c].charged_back(tx)), Ok(()))
            } else {
                out_of_range
            }
        },
    }
}

/// Applies payment events to client accounts and keeps a journal of the
/// accepted deposits and withdrawals.
pub struct WalletManager {
    wallets: DashMap<u16, Wallet>,
    transaction_journal: DashMap<u16, HashMap<u32, Transaction>>,
}

impl View for WalletManager {
    type V = LedgerView;

    closed spec fn view(&self) -> LedgerView {
        LedgerView {
            wallets: Map::new(
                |c: u16| wallet_table(self.wallets).contains_key(c),
                |c: u16| wallet_table(self.wallets)[c]@,
            ),
            journal: Map::new(
                |c: u16| journal_table(self.transaction_journal).contains_key(c),
                |c: u16| journal_table(self.transaction_journal)[c]@,
            ),
        }
    }
}

impl WalletManager {
    pub closed spec fn wf(&self) -> bool {
        forall|c: u16| #[trigger]
            wallet_table(self.wallets).contains_key(c) ==> wallet_table(self.wallets)[c].wf()
                && wallet_table(self.wallets)[c].client.0 == c
    }

    pub fn init() -> (r: WalletManager)
        ensures
            r.wf(),
            r@.wf(),
            r@ == LedgerView::empty(),
    {
        let r = WalletManager { wallets: new_wallet_table(), transaction_journal: new_journal_table() };
        proof {
            assert(r@.wallets =~= Map::empty());
            assert(r@.journal =~= Map::empty());
        }
        r
    }

    /// Looks up the journaled event of client `c` with transaction id `tx`.
    fn journaled(&mut self, c: u16, tx: u32) -> (r: Option<Transaction>)
        requires
            old(self).wf(),
        ensures
            final(self).wf(),
            final(self)@ == old(self)@,
            r == old(self)@.journaled(c, tx),
    {
        match take_journal(&mut self.transaction_journal, c) {
            Some(j) => {
                let r = match j.get(&tx) {
                    Some(t) => Some(*t),
                    None => None,
                };
                put_journal(&mut self.transaction_journal, c, j);
                proof {
                    assert(self@.journal =~= old(self)@.journal);
                }
                r
            },
            None => {
                proof {
                    assert(self@.journal =~= old(self)@.journal);
                }
                None
            },
        }
    }

    /// Records `t` in the journal of client `c` under transaction id `tx`.
    fn record(&mut self, c: u16, tx: u32, t: Transaction)
        requires
            old(self).wf(),
        ensures
            final(self).wf(),
            final(self)@ == (LedgerView { journal: old(self)@.journal_with(c, tx, t), ..old(self)@ }),
    {
        let mut j = match take_journal(&mut self.transaction_journal, c) {
            Some(j) => j,
            None => HashMap::new(),
        };
        j.insert(tx, t);
        put_journal(&mut self.transaction_journal, c, j);
        proof {
            assert(self@.journal =~= old(self)@.journal_with(c, tx, t));
        }
    }

    /// Takes the account of client `c` out of the table.
    fn take(&mut self, c: u16) -> (r: Option<Wallet>)
        requires
            old(self).wf(),
        ensures
            final(self).wf(),
            final(self)@ == (LedgerView { wallets: old(self)@.wallets.remove(c), ..old(self)@ }),
            old(self)@.wallets.contains_key(c) <==> r is Some,
            r matches Some(w) ==> w@ == old(self)@.wallets[c] && w.wf() && w.client.0 == c,
    {
        let r = take_wallet(&mut self.wallets, c);
        proof {
            assert(self@.wallets =~= old(self)@.wallets.remove(c));
        }
        r
    }

    /// Files `w` under its client id.
    fn put(&mut self, w: Wallet)
        requires
            old(self).wf(),
            w.wf(),
        ensures
            final(self).wf(),
            final(self)@ == old(self)@.with_wallet(w.client.0, w@),
    {
        let ghost wv = w@;
        let c = w.client.0;
        put_wallet(&mut self.wallets, c, w);
        proof {
            assert(self@.wallets =~= old(self)@.wallets.insert(c, wv));
        }
    }

    proof fn lemma_view_wf(&self)
        requires
            self.wf(),
        ensures
            self@.wf(),
    {
    }

    /// Applies one event to the ledger. An accepted event changes the ledger as
    /// `apply_spec` says; a rejected one leaves it as it was and is returned as
    /// a `Failure`. Besides the rules of each event kind, an event that would
    /// carry a balance outside the signed 64-bit range is rejected.
    pub fn apply(&mut self, t: Transaction) -> (r: Result<(), Failure>)
        requires
            old(self).wf(),
        ensures
            final(self).wf(),
            final(self)@.wf(),
            (final(self)@, result_view(r)) == apply_spec(old(self)@, t),
    {
        let ghost l0 = self@;
        proof {
            self.lemma_view_wf();
            lemma_apply_preserves_wf(l0, t);
        }
        match t {
            Transaction::Deposit { client, tx_id, amount } => {
                let existing = self.take(client.0);
                let existed = existing.is_some();
                let mut w = match existing {
                    Some(w) => w,
                    None => Wallet::new(client),
                };
                let a = amount.units as i128;
                if w.can_shift(a, 0, a) {
                    w.deposit(tx_id, amount);
                    self.put(w);
                    self.record(client.0, tx_id.0, t);
                    proof {
                        assert(self@.wallets =~= apply_spec(l0, t).0.wallets);
                    }
                    Ok(())
                } else {
                    if existed {
                        self.put(w);
                    }
                    proof {
                        assert(self@.wallets =~= l0.wallets);
                    }
                    Err(Failure::new(client, tx_id, "Balance out of range".to_owned()))
                }
            },
            Transaction::Withdrawal { client, tx_id, amount } => {
                match self.take(client.0) {
                    None => Err(Failure::no_wallet(client, tx_id)),
                    Some(mut w) => {
                        let a = amount.units as i128;
                        if w.balance.available.units >= amount.units && !w.can_shift(-a, 0, -a) {
                            self.put(w);
                            proof {
                                assert(self@.wallets =~= l0.wallets);
                            }
                            Err(Failure::new(client, tx_id, "Balance out of range".to_owned()))
                        } else {
                            let res = w.withdraw(tx_id, amount);
                            self.put(w);
                            match res {
                                Ok(()) => {
                                    self.record(client.0, tx_id.0, t);
                                    proof {
                                        assert(self@.wallets =~= apply_spec(l0, t).0.wallets);
                                    }
                                    Ok(())
                                },
                                Err(e) => {
                                    proof {
                                        assert(self@.wallets =~= l0.wallets);
                                    }
                                    Err(e)
                                },
                            }
                        }
                    },
                }
            },
            Transaction::Dispute { client, tx_id } => {
                match self.journaled(client.0, tx_id.0) {
                    Some(Transaction::Deposit { amount, .. }) => {
                        match self.take(client.0) {
                            None => Err(Failure::no_wallet(client, tx_id)),
                            Some(mut w) => {
                                let a = amount.units as i128;
                                if w.can_shift(-a, a, 0) {
                                    w.dispute(tx_id, amount);
                                    self.put(w);
                                    proof {
                                        assert(self@.wallets =~= apply_spec(l0, t).0.wallets);
                                    }
                                    Ok(())
                                } else {
                                    self.put(w);
                                    proof {
                                        assert(self@.wallets =~= l0.wallets);
                                    }
                                    Err(Failure::new(client, tx_id, "Balance out of range".to_owned()))
                                }
                            },
                        }
                    },
                    Some(Transaction::Withdrawal { .. }) => Err(
                        Failure::new(client, tx_id, "Can't dispute a withdraw!".to_owned()),
                    ),
                    _ => Err(Failure::new(client, tx_id, "Transaction to dispute was not found!".to_owned())),
                }
            },
            Transaction::Resolve { client, tx_id } => {
                match self.take(client.0) {
                    None => Err(Failure::no_wallet(client, tx_id)),
                    Some(mut w) => {
                        let fits = match w.open_disputes.get(&tx_id.0) {
                            Some(d) => w.can_shift(d.units as i128, -(d.units as i128), 0),
                            None => true,
                        };
                        if fits {
                            let res = w.settle_dispute(tx_id);
                            self.put(w);
                            proof {
                                if res is Ok {
                                    assert(self@.wallets =~= apply_spec(l0, t).0.wallets);
                                } else {
                                    assert(self@.wallets =~= l0.wallets);
                                }
                            }
                            res
                        } else {
                            self.put(w);
                            proof {
                                assert(self@.wallets =~= l0.wallets);
                            }
                            Err(Failure::new(client, tx_id, "Balance out of range".to_owned()))
                        }
                    },
                }
            },
            Transaction::ChargeBack { client, tx_id } => {
                match self.take(client.0) {
                    None => Err(Failure::no_wallet(client, tx_id)),
                    Some(mut w) => {
                        let fits = match w.open_disputes.get(&tx_id.0) {
                            Some(d) => w.can_shift(0, -(d.units as i128), -(d.units as i128)),
                            None => true,
                        };
                        if fits {
                            let res = w.charge_back(tx_id);
                            self.put(w);
                            proof {
                                if res is Ok {
                                    assert(self@.wallets =~= apply_spec(l0, t).0.wallets);
                                } else {
                                    assert(self@.wallets =~= l0.wallets);
                                }
                            }
                            res
                        } else {
                            self.put(w);
                            proof {
                                assert(self@.wallets =~= l0.wallets);
                            }
                            Err(Failure::new(client, tx_id, "Balance out of range".to_owned()))
                        }
                    },
                }
            },
        }
    }

    /// Hands over every account of the ledger, each exactly once, in no
    /// particular order.
    pub fn export_wallets(self) -> (r: Vec<Wallet>)
        requires
            self.wf(),
        ensures
            r@.len() == self@.wallets.dom().len(),
            forall|i: int|
                #![trigger r@[i]]
                0 <= i < r@.len() ==> r@[i].wf() && self@.wallets.contains_key(r@[i].client.0)
                    && self@.wallets[r@[i].client.0] == r@[i]@,
            forall|c: u16|
                #![trigger self@.wallets[c]]
                self@.wallets.contains_key(c) ==> exists|i: int|
                    #![trigger r@[i]]
                    0 <= i < r@.len() && r@[i].client.0 == c && r@[i]@ == self@.wallets[c],
    {
        let ghost l = self@;
        let ghost table = wallet_table(self.wallets);
        proof {
            assert(l.wallets.dom() =~= table.dom());
        }
        drain_wallets(self.wallets)
    }
}

/// The ledger after applying `ts` in order, starting from `l`.
pub open spec fn apply_all(l: LedgerView, ts: Seq<Transaction>) -> LedgerView
    decreases ts.len(),
{
    if ts.len() == 0 {
        l
    } else {
        apply_spec(apply_all(l, ts.drop_last()), ts.last()).0
    }
}

/// Every event keeps each account well formed: `total == available + held`,
/// with every balance in range, and each account filed under its own client.
pub proof fn lemma_apply_preserves_wf(l: LedgerView, t: Transaction)
    requires
        l.wf(),
    ensures
        apply_spec(l, t).0.wf(),
{
    let l2 = apply_spec(l, t).0;
    assert forall|c: u16| #[trigger] l2.wallets.contains_key(c) implies l2.wallets[c].wf()
        && l2.wallets[c].client == c by {
        if l.wallets.contains_key(c) {
            assert(l.wallets[c].wf());
        }
    }
}

/// Starting from an empty ledger, any run of deposits and withdrawals leaves
/// every account with `total == available + held`, nothing held and no open
/// dispute, so that `held` equals the sum of the disputed amounts.
pub proof fn lemma_deposits_withdrawals_keep_balances(ts: Seq<Transaction>)
    requires
        forall|i: int|
            0 <= i < ts.len() ==> (#[trigger] ts[i] is Deposit || ts[i] is Withdrawal),
    ensures
        apply_all(LedgerView::empty(), ts).wf(),
        forall|c: u16| #[trigger]
            apply_all(LedgerView::empty(), ts).wallets.contains_key(c) ==> {
                let w = apply_all(LedgerView::empty(), ts).wallets[c];
                &&& w.total == w.available + w.held
                &&& w.held == 0
                &&& w.disputes == Map::<u32, Amount>::empty()
            },
    decreases ts.len(),
{
    if ts.len() > 0 {
        let prefix = ts.drop_last();
        assert forall|i: int| 0 <= i < prefix.len() implies (#[trigger] prefix[i] is Deposit
            || prefix[i] is Withdrawal) by {
            assert(prefix[i] == ts[i]);
        }
        lemma_deposits_withdrawals_keep_balances(prefix);
        let l = apply_all(LedgerView::empty(), prefix);
        assert(ts[ts.len() - 1] is Deposit || ts[ts.len() - 1] is Withdrawal);
        lemma_apply_preserves_wf(l, ts.last());
        let l2 = apply_all(LedgerView::empty(), ts);
        assert forall|c: u16| #[trigger] l2.wallets.contains_key(c) implies {
            let w = l2.wallets[c];
            &&& w.total == w.available + w.held
            &&& w.held == 0
            &&& w.disputes == Map::<u32, Amount>::empty()
        } by {
            if l.wallets.contains_key(c) {
                assert(l.wallets[c].held == 0);
            }
        }
    }
}

} // verus!
