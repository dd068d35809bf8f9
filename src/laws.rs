use vstd::prelude::*;
use crate::transaction::{
    Amount, Client, Transaction, TransactionId, failure_of, insufficient_funds_reason,
    settle_not_found_reason, charge_back_not_found_reason, dispute_withdrawal_reason,
    dispute_not_found_reason,
};
use crate::wallet::fits;
use crate::wallet_manager::{LedgerView, apply_spec};

verus! {

/// Depositing an amount into an account that does not exist yet and then
/// withdrawing the same amount is accepted twice and leaves the new account
/// with nothing available, nothing held and a zero total.
pub proof fn lemma_deposit_then_withdraw(
    l: LedgerView,
    client: Client,
    tx1: TransactionId,
    tx2: TransactionId,
    amount: Amount,
)
    requires
        l.wf(),
        !l.wallets.contains_key(client.0),
        amount@ >= 0,
    ensures
        ({
            let (l1, r1) = apply_spec(l, Transaction::Deposit { client, tx_id: tx1, amount });
            let (l2, r2) = apply_spec(l1, Transaction::Withdrawal { client, tx_id: tx2, amount });
            &&& r1 is Ok
            &&& r2 is Ok
            &&& l2.wallets.contains_key(client.0)
            &&& l2.wallets[client.0].available == 0
            &&& l2.wallets[client.0].held == 0
            &&& l2.wallets[client.0].total == 0
            &&& !l2.wallets[client.0].locked
        }),
{
}

/// A withdrawal of more than the available funds is rejected for
/// insufficient funds and leaves the ledger unchanged.
pub proof fn lemma_overdraw_rejected(l: LedgerView, client: Client, tx: TransactionId, amount: Amount)
    requires
        l.wallets.contains_key(client.0),
        l.wallets[client.0].available < amount@,
    ensures
        apply_spec(l, Transaction::Withdrawal { client, tx_id: tx, amount }) == (
        l,
        Err::<(), _>(failure_of(client.0, tx.0, insufficient_funds_reason())),
        ),
{
}

/// Disputing a journaled deposit moves its amount from available to held and
/// keeps the total. Resolving the dispute afterwards restores the available
/// and held funds and closes the dispute; charging it back instead restores
/// the held funds, takes the amount off the total and locks the account.
pub proof fn lemma_dispute_cycle(l: LedgerView, client: Client, tx: TransactionId)
    requires
        l.wf(),
        l.journaled(client.0, tx.0) matches Some(Transaction::Deposit { .. }),
        l.wallets.contains_key(client.0),
        ({
            let a = l.journaled(client.0, tx.0)->Some_0->Deposit_amount@;
            l.wallets[client.0].can_shift(-a, a, 0)
        }),
    ensures
        ({
            let a = l.journaled(client.0, tx.0)->Some_0->Deposit_amount@;
            let w = l.wallets[client.0];
            let (l1, r1) = apply_spec(l, Transaction::Dispute { client, tx_id: tx });
            let w1 = l1.wallets[client.0];
            let (l2, r2) = apply_spec(l1, Transaction::Resolve { client, tx_id: tx });
            let w2 = l2.wallets[client.0];
            let (l3, r3) = apply_spec(l1, Transaction::ChargeBack { client, tx_id: tx });
            let w3 = l3.wallets[client.0];
            &&& r1 is Ok
            &&& w1.available == w.available - a
            &&& w1.held == w.held + a
            &&& w1.total == w.total
            &&& r2 is Ok
            &&& w2.available == w.available
            &&& w2.held == w.held
            &&& w2.total == w.total
            &&& w2.locked == w.locked
            &&& !w2.disputes.contains_key(tx.0)
            &&& fits(w.total - a) ==> {
                &&& r3 is Ok
                &&& w3.available == w.available - a
                &&& w3.held == w.held
                &&& w3.total == w.total - a
                &&& w3.locked
                &&& !w3.disputes.contains_key(tx.0)
            }
        }),
{
}

/// A dispute of a journaled withdrawal, or of a transaction id never journaled
/// for that client, is rejected and leaves the ledger unchanged.
pub proof fn lemma_dispute_rejected(l: LedgerView, client: Client, tx: TransactionId)
    requires
        l.journaled(client.0, tx.0) is None || l.journaled(client.0, tx.0) matches Some(
            Transaction::Withdrawal { .. },
        ),
    ensures
        apply_spec(l, Transaction::Dispute { client, tx_id: tx }).0 == l,
        l.journaled(client.0, tx.0) is None ==> apply_spec(l, Transaction::Dispute { client, tx_id: tx }).1
            == Err::<(), _>(failure_of(client.0, tx.0, dispute_not_found_reason())),
        l.journaled(client.0, tx.0) is Some ==> apply_spec(l, Transaction::Dispute { client, tx_id: tx }).1
            == Err::<(), _>(failure_of(client.0, tx.0, dispute_withdrawal_reason())),
{
}

/// Resolving or charging back a transaction id that is not under dispute is
/// rejected as a dispute not found and leaves the ledger unchanged.
pub proof fn lemma_settle_without_dispute_rejected(l: LedgerView, client: Client, tx: TransactionId)
    requires
        l.wallets.contains_key(client.0),
        !l.wallets[client.0].disputes.contains_key(tx.0),
    ensures
        apply_spec(l, Transaction::Resolve { client, tx_id: tx }) == (
        l,
        Err::<(), _>(failure_of(client.0, tx.0, settle_not_found_reason())),
        ),
        apply_spec(l, Transaction::ChargeBack { client, tx_id: tx }) == (
        l,
        Err::<(), _>(failure_of(client.0, tx.0, charge_back_not_found_reason())),
        ),
{
}

} // verus!
