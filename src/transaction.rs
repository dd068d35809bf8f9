use vstd::prelude::*;

verus! {

/// Number of ten-thousandths in one currency unit.
pub const SCALE: i64 = 10000;

/// A monetary quantity with four fractional digits, stored as a count of
/// ten-thousandths. Amounts built through `try_new` are never negative;
/// balances derived from them by subtraction may be.
#[derive(Clone, Copy, Debug, PartialEq, Eq, Structural)]
pub struct Amount {
    pub units: i64,
}

impl View for Amount {
    type V = int;

    open spec fn view(&self) -> int {
        self.units as int
    }
}

impl Amount {
    /// Builds an amount without checking its sign.
    pub fn unsafe_new(units: i64) -> (r: Amount)
        ensures
            r@ == units,
    {
        Amount { units }
    }

    pub fn zero() -> (r: Amount)
        ensures
            r@ == 0,
    {
        Amount { units: 0 }
    }

    /// Builds an amount, refusing a negative value.
    pub fn try_new(units: i64) -> (r: Result<Amount, String>)
        ensures
            units >= 0 <==> r is Ok,
            r matches Ok(a) ==> a@ == units,
            r matches Err(e) ==> e@ == negative_amount_reason(),
    {
        if units >= 0 {
            Ok(Amount { units })
        } else {
            Err("Amount must be positive".to_owned())
        }
    }
}

impl Amount {
    /// Splits the amount into its sign, whole units and ten-thousandths, for
    /// printing with four fractional digits.
    pub fn decimal_parts(&self) -> (r: (bool, u64, u64))
        ensures
            r.0 == (self@ < 0),
            r.2 < SCALE,
            (if r.0 { -self@ } else { self@ }) == r.1 * SCALE + r.2,
    {
        let negative = self.units < 0;
        let magnitude: u64 = if negative {
            (-(self.units as i128)) as u64
        } else {
            self.units as u64
        };
        (negative, magnitude / 10000, magnitude % 10000)
    }
}

pub open spec fn negative_amount_reason() -> Seq<char> {
    "Amount must be positive"@
}

/// Identifier of an account holder.
#[derive(Clone, Copy, Debug, PartialEq, Eq, Hash, Structural)]
pub struct Client(pub u16);

impl Client {
    pub fn new(id: u16) -> (r: Client)
        ensures
            r.0 == id,
    {
        Client(id)
    }
}

/// Identifier of a deposit or withdrawal.
#[derive(Clone, Copy, Debug, PartialEq, Eq, Hash, Structural)]
pub struct TransactionId(pub u32);

impl TransactionId {
    pub fn new(id: u32) -> (r: TransactionId)
        ensures
            r.0 == id,
    {
        TransactionId(id)
    }
}

/// One payment event of the input stream.
#[derive(Clone, Copy, Debug, PartialEq, Eq, Structural)]
pub enum Transaction {
    Deposit { client: Client, tx_id: TransactionId, amount: Amount },
    Withdrawal { client: Client, tx_id: TransactionId, amount: Amount },
    Dispute { client: Client, tx_id: TransactionId },
    Resolve { client: Client, tx_id: TransactionId },
    ChargeBack { client: Client, tx_id: TransactionId },
}

impl Transaction {
    pub open spec fn client_of(self) -> Client {
        match self {
            Transaction::Deposit { client, .. } => client,
            Transaction::Withdrawal { client, .. } => client,
            Transaction::Dispute { client, .. } => client,
            Transaction::Resolve { client, .. } => client,
            Transaction::ChargeBack { client, .. } => client,
        }
    }

    pub open spec fn tx_of(self) -> TransactionId {
        match self {
            Transaction::Deposit { tx_id, .. } => tx_id,
            Transaction::Withdrawal { tx_id, .. } => tx_id,
            Transaction::Dispute { tx_id, .. } => tx_id,
            Transaction::Resolve { tx_id, .. } => tx_id,
            Transaction::ChargeBack { tx_id, .. } => tx_id,
        }
    }
}

/// A rejected event: whose it was, which transaction, and why.
#[derive(Clone, Debug)]
pub struct Failure {
    pub client: Client,
    pub tx: TransactionId,
    pub reason: String,
}

/// What a failure says, with its reason as text.
pub ghost struct FailureView {
    pub client: u16,
    pub tx: u32,
    pub reason: Seq<char>,
}

impl View for Failure {
    type V = FailureView;

    open spec fn view(&self) -> FailureView {
        FailureView { client: self.client.0, tx: self.tx.0, reason: self.reason@ }
    }
}

pub open spec fn failure_of(client: u16, tx: u32, reason: Seq<char>) -> FailureView {
    FailureView { client, tx, reason }
}

pub open spec fn insufficient_funds_reason() -> Seq<char> {
    "Insufficient funds"@
}

pub open spec fn no_wallet_reason() -> Seq<char> {
    "No wallet found for client"@
}

pub open spec fn settle_not_found_reason() -> Seq<char> {
    "Disputed transaction not found for settlement!"@
}

pub open spec fn charge_back_not_found_reason() -> Seq<char> {
    "Disputed transaction not found for charge back!"@
}

pub open spec fn dispute_withdrawal_reason() -> Seq<char> {
    "Can't dispute a withdraw!"@
}

pub open spec fn dispute_not_found_reason() -> Seq<char> {
    "Transaction to dispute was not found!"@
}

pub open spec fn out_of_range_reason() -> Seq<char> {
    "Balance out of range"@
}

impl Failure {
    pub fn new(client: Client, tx: TransactionId, reason: String) -> (r: Failure)
        ensures
            r.client == client,
            r.tx == tx,
            r.reason@ == reason@,
    {
        Failure { client, tx, reason }
    }

    pub fn insufficient_funds(client: Client, tx: TransactionId) -> (r: Failure)
        ensures
            r@ == failure_of(client.0, tx.0, insufficient_funds_reason()),
    {
        Failure { client, tx, reason: "Insufficient funds".to_owned() }
    }

    pub fn no_wallet(client: Client, tx: TransactionId) -> (r: Failure)
        ensures
            r@ == failure_of(client.0, tx.0, no_wallet_reason()),
    {
        Failure { client, tx, reason: "No wallet found for client".to_owned() }
    }
}

} // verus!
