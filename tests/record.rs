use csv::StringRecord;
use ledger::record::parse_unsigned_field;
use ledger::transaction::{Amount, Client, Failure, Transaction, TransactionId};

fn row(fields: &[&str]) -> Option<Transaction> {
    Transaction::from_csv_row(&StringRecord::from(fields.to_vec()))
}

#[test]
fn row_deposit_is_read() {
    assert_eq!(
        row(&["deposit", "1", "1", "1.0"]),
        Some(Transaction::Deposit {
            client: Client::new(1),
            tx_id: TransactionId::new(1),
            amount: Amount::unsafe_new(10_000),
        })
    );
}

#[test]
fn row_kinds_without_amount_are_read() {
    let c = Client::new(65535);
    let t = TransactionId::new(4294967295);
    assert_eq!(row(&["dispute", "65535", "4294967295", ""]), Some(Transaction::Dispute { client: c, tx_id: t }));
    assert_eq!(row(&["resolve", "65535", "4294967295"]), Some(Transaction::Resolve { client: c, tx_id: t }));
    assert_eq!(row(&["chargeback", "65535", "4294967295"]), Some(Transaction::ChargeBack { client: c, tx_id: t }));
}

#[test]
fn row_malformed_is_dropped() {
    assert_eq!(row(&["deposit", "1", "1"]), None);
    assert_eq!(row(&["withdrawal", "1", "1", "abc"]), None);
    assert_eq!(row(&["deposit", "1", "1", "-5.0"]), None);
    assert_eq!(row(&["refund", "1", "1", "1.0"]), None);
    assert_eq!(row(&["deposit", "65536", "1", "1.0"]), None);
    assert_eq!(row(&["deposit", "1", "4294967296", "1.0"]), None);
    assert_eq!(row(&["deposit", "1"]), None);
}

#[test]
fn amount_parse_values() {
    assert_eq!(Amount::parse("2.7426"), Some(Amount::unsafe_new(27_426)));
    assert_eq!(Amount::parse("100"), Some(Amount::unsafe_new(1_000_000)));
    assert_eq!(Amount::parse("+.5"), Some(Amount::unsafe_new(5_000)));
    assert_eq!(Amount::parse("3."), Some(Amount::unsafe_new(30_000)));
    assert_eq!(Amount::parse("0.00005"), Some(Amount::unsafe_new(1)));
    assert_eq!(Amount::parse("0.00004"), Some(Amount::unsafe_new(0)));
    assert_eq!(Amount::parse("922337203685477.5807"), Some(Amount::unsafe_new(i64::MAX)));
    assert_eq!(Amount::parse("922337203685477.5808"), None);
    assert_eq!(Amount::parse("."), None);
    assert_eq!(Amount::parse(""), None);
    assert_eq!(Amount::parse("1.2.3"), None);
}

#[test]
fn unsigned_field_values() {
    assert_eq!(parse_unsigned_field("+42", 100), Some(42));
    assert_eq!(parse_unsigned_field("101", 100), None);
    assert_eq!(parse_unsigned_field("+", 100), None);
    assert_eq!(parse_unsigned_field("4a", 100), None);
}

#[test]
fn amount_try_new_refuses_negative() {
    assert_eq!(Amount::try_new(0), Ok(Amount::zero()));
    assert_eq!(Amount::try_new(-1), Err("Amount must be positive".to_string()));
}

#[test]
fn failure_constructors() {
    let f = Failure::insufficient_funds(Client::new(1), TransactionId::new(2));
    assert_eq!(f.reason, "Insufficient funds");
    let g = Failure::no_wallet(Client::new(3), TransactionId::new(4));
    assert_eq!((g.client, g.tx), (Client::new(3), TransactionId::new(4)));
    assert_eq!(g.reason, "No wallet found for client");
    let h = Failure::new(Client::new(5), TransactionId::new(6), "custom".to_string());
    assert_eq!(h.reason, "custom");
}

#[test]
fn amount_decimal_parts() {
    assert_eq!(Amount::unsafe_new(27_426).decimal_parts(), (false, 2, 7_426));
    assert_eq!(Amount::unsafe_new(-5).decimal_parts(), (true, 0, 5));
    assert_eq!(Amount::unsafe_new(i64::MIN).decimal_parts(), (true, 922337203685477, 5808));
}
