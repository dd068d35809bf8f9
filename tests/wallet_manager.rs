use ledger::transaction::{Amount, Client, Transaction, TransactionId};
use ledger::wallet::Balance;
use ledger::wallet_manager::WalletManager;

fn run(transactions: Vec<Transaction>) -> (WalletManager, Vec<ledger::transaction::Failure>) {
    let mut manager = WalletManager::init();
    let mut failures = Vec::new();
    for t in transactions {
        if let Err(e) = manager.apply(t) {
            failures.push(e);
        }
    }
    (manager, failures)
}

#[test]
fn test_deposit_withdraw_transaction() {
    let client = Client::new(1);
    let deposit_amount = Amount::unsafe_new(1_000_000);
    let (manager, _) = run(vec![
        Transaction::Deposit { client, tx_id: TransactionId::new(1), amount: deposit_amount },
        Transaction::Withdrawal { client, tx_id: TransactionId::new(2), amount: deposit_amount },
    ]);
    let wallets = manager.export_wallets();
    assert_eq!(wallets.len(), 1);
    assert_eq!(wallets[0].client, client);
    assert_eq!(
        wallets[0].balance,
        Balance { available: Amount::zero(), held: Amount::zero(), total: Amount::zero() }
    );
}

#[test]
fn test_dispute_resolve_transaction() {
    let client = Client::new(1);
    let deposit_amount = Amount::unsafe_new(1_000_000);
    let (manager, _) = run(vec![
        Transaction::Deposit { client, tx_id: TransactionId::new(1), amount: deposit_amount },
        Transaction::Dispute { client, tx_id: TransactionId::new(1) },
        Transaction::Resolve { client, tx_id: TransactionId::new(1) },
    ]);
    let wallets = manager.export_wallets();
    assert_eq!(wallets.len(), 1);
    assert_eq!(wallets[0].client, client);
    assert_eq!(
        wallets[0].balance,
        Balance { available: deposit_amount, held: Amount::zero(), total: deposit_amount }
    );
}

#[test]
fn test_dispute_chargeback_transaction() {
    let client = Client::new(1);
    let deposit_amount = Amount::unsafe_new(1_000_000);
    let (manager, _) = run(vec![
        Transaction::Deposit { client, tx_id: TransactionId::new(1), amount: deposit_amount },
        Transaction::Dispute { client, tx_id: TransactionId::new(1) },
        Transaction::ChargeBack { client, tx_id: TransactionId::new(1) },
    ]);
    let wallets = manager.export_wallets();
    assert_eq!(wallets.len(), 1);
    assert_eq!(wallets[0].client, client);
    assert_eq!(wallets[0].locked, true);
    assert_eq!(
        wallets[0].balance,
        Balance { available: Amount::zero(), held: Amount::zero(), total: Amount::zero() }
    );
}

#[test]
fn withdrawal_without_wallet_reports_no_wallet() {
    let (manager, failures) = run(vec![Transaction::Withdrawal {
        client: Client::new(2),
        tx_id: TransactionId::new(1),
        amount: Amount::unsafe_new(500_000),
    }]);
    assert_eq!(failures.len(), 1);
    assert_eq!(failures[0].client, Client::new(2));
    assert_eq!(failures[0].tx, TransactionId::new(1));
    assert_eq!(failures[0].reason, "No wallet found for client");
    assert_eq!(manager.export_wallets().len(), 0);
}

fn deposit(c: u16, tx: u32, units: i64) -> Transaction {
    Transaction::Deposit { client: Client::new(c), tx_id: TransactionId::new(tx), amount: Amount::unsafe_new(units) }
}

fn withdrawal(c: u16, tx: u32, units: i64) -> Transaction {
    Transaction::Withdrawal { client: Client::new(c), tx_id: TransactionId::new(tx), amount: Amount::unsafe_new(units) }
}

#[test]
fn overdraw_is_rejected_and_not_journaled() {
    let (manager, failures) = run(vec![
        deposit(7, 1, 100_000),
        withdrawal(7, 2, 200_000),
        Transaction::Dispute { client: Client::new(7), tx_id: TransactionId::new(2) },
    ]);
    assert_eq!(failures.len(), 2);
    assert_eq!(failures[0].reason, "Insufficient funds");
    assert_eq!(failures[1].reason, "Transaction to dispute was not found!");
    let wallets = manager.export_wallets();
    assert_eq!(wallets[0].balance.available, Amount::unsafe_new(100_000));
    assert_eq!(wallets[0].balance.total, Amount::unsafe_new(100_000));
}

#[test]
fn dispute_of_withdrawal_is_rejected() {
    let (manager, failures) = run(vec![
        deposit(3, 1, 100_000),
        withdrawal(3, 2, 40_000),
        Transaction::Dispute { client: Client::new(3), tx_id: TransactionId::new(2) },
    ]);
    assert_eq!(failures.len(), 1);
    assert_eq!(failures[0].client, Client::new(3));
    assert_eq!(failures[0].tx, TransactionId::new(2));
    assert_eq!(failures[0].reason, "Can't dispute a withdraw!");
    let wallets = manager.export_wallets();
    assert_eq!(wallets[0].balance.available, Amount::unsafe_new(60_000));
    assert_eq!(wallets[0].balance.held, Amount::zero());
}

#[test]
fn dispute_is_scoped_per_client() {
    let (manager, failures) = run(vec![
        deposit(1, 10, 100_000),
        deposit(2, 11, 100_000),
        Transaction::Dispute { client: Client::new(2), tx_id: TransactionId::new(10) },
    ]);
    assert_eq!(failures.len(), 1);
    assert_eq!(failures[0].reason, "Transaction to dispute was not found!");
    for w in manager.export_wallets() {
        assert_eq!(w.balance.held, Amount::zero());
    }
}

#[test]
fn resolve_and_chargeback_without_dispute_fail() {
    let (manager, failures) = run(vec![
        deposit(4, 1, 100_000),
        Transaction::Resolve { client: Client::new(4), tx_id: TransactionId::new(1) },
        Transaction::ChargeBack { client: Client::new(4), tx_id: TransactionId::new(1) },
        Transaction::Resolve { client: Client::new(5), tx_id: TransactionId::new(1) },
    ]);
    assert_eq!(failures.len(), 3);
    assert_eq!(failures[0].reason, "Disputed transaction not found for settlement!");
    assert_eq!(failures[1].reason, "Disputed transaction not found for charge back!");
    assert_eq!(failures[2].reason, "No wallet found for client");
    let wallets = manager.export_wallets();
    assert_eq!(wallets.len(), 1);
    assert_eq!(wallets[0].balance.available, Amount::unsafe_new(100_000));
    assert!(!wallets[0].locked);
}

#[test]
fn dispute_moves_funds_to_held() {
    let (manager, failures) = run(vec![
        deposit(1, 1, 300_000),
        deposit(1, 2, 50_000),
        Transaction::Dispute { client: Client::new(1), tx_id: TransactionId::new(2) },
    ]);
    assert!(failures.is_empty());
    let w = &manager.export_wallets()[0];
    assert_eq!(w.balance.available, Amount::unsafe_new(300_000));
    assert_eq!(w.balance.held, Amount::unsafe_new(50_000));
    assert_eq!(w.balance.total, Amount::unsafe_new(350_000));
}

#[test]
fn deposits_and_withdrawals_keep_total_consistent() {
    let (manager, _) = run(vec![
        deposit(1, 1, 10_000),
        withdrawal(1, 2, 3_000),
        deposit(2, 3, 7_000),
        withdrawal(1, 4, 9_000),
        deposit(1, 5, 1),
    ]);
    let wallets = manager.export_wallets();
    assert_eq!(wallets.len(), 2);
    for w in wallets {
        assert_eq!(w.balance.total.units, w.balance.available.units + w.balance.held.units);
        assert_eq!(w.balance.held, Amount::zero());
        assert!(w.open_disputes.is_empty());
    }
}

#[test]
fn deposit_overflow_is_rejected() {
    let (manager, failures) = run(vec![deposit(1, 1, i64::MAX), deposit(1, 2, 1)]);
    assert_eq!(failures.len(), 1);
    assert_eq!(failures[0].reason, "Balance out of range");
    assert_eq!(manager.export_wallets()[0].balance.total, Amount::unsafe_new(i64::MAX));
}
