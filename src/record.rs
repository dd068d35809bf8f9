use vstd::prelude::*;
use vstd::string::StringSliceAdditionalSpecFns;
use csv::StringRecord;
use crate::transaction::{Amount, Client, Transaction, TransactionId};

verus! {

#[verifier::external_type_specification]
#[verifier::external_body]
pub struct ExStringRecord(StringRecord);

/// The UTF-8 bytes of each field of a record, in order.
pub uninterp spec fn record_fields(r: StringRecord) -> Seq<Seq<u8>>;

/// Relies on `StringRecord::get`: the field at index `i`, or `None` past the last field.
pub assume_specification[ StringRecord::get ](r: &StringRecord, i: usize) -> (f: Option<&str>)
    ensures
        (i < record_fields(*r).len()) == (f is Some),
        f matches Some(s) ==> s.spec_bytes() == record_fields(*r)[i as int],
;

pub open spec fn is_digit(b: u8) -> bool {
    48 <= b <= 57
}

pub open spec fn all_digits(s: Seq<u8>) -> bool {
    forall|i: int| 0 <= i < s.len() ==> is_digit(#[trigger] s[i])
}

/// The number that a string of decimal digits denotes.
pub open spec fn digits_value(s: Seq<u8>) -> nat
    decreases s.len(),
{
    if s.len() == 0 {
        0
    } else {
        digits_value(s.drop_last()) * 10 + (s.last() - 48) as nat
    }
}

/// The text with one leading `+` taken off, if it has one.
pub open spec fn unsigned_part(s: Seq<u8>) -> Seq<u8> {
    if s.len() > 0 && s[0] == 43 {
        s.drop_first()
    } else {
        s
    }
}

/// An unsigned integer written as an optional `+` and one or more digits.
pub open spec fn parse_unsigned(s: Seq<u8>) -> Option<nat> {
    let d = unsigned_part(s);
    if d.len() > 0 && all_digits(d) {
        Some(digits_value(d))
    } else {
        None
    }
}

/// Index of the first `.` in `s`, or its length if there is none.
pub open spec fn first_dot(s: Seq<u8>) -> int
    decreases s.len(),
{
    if s.len() == 0 {
        0
    } else if s[0] == 46 {
        0
    } else {
        1 + first_dot(s.drop_first())
    }
}

/// The digit at `i`, or 0 past the end.
pub open spec fn digit_at(f: Seq<u8>, i: int) -> int {
    if i < f.len() {
        f[i] - 48
    } else {
        0
    }
}

/// Ten-thousandths denoted by the fractional digits `f`, rounded half up on the fifth digit.
pub open spec fn frac_units(f: Seq<u8>) -> int {
    digit_at(f, 0) * 1000 + digit_at(f, 1) * 100 + digit_at(f, 2) * 10 + digit_at(f, 3) + if f.len()
        > 4 && f[4] >= 53 {
        1int
    } else {
        0int
    }
}

/// A non-negative decimal amount in ten-thousandths: an optional `+`, integer
/// digits, and optionally `.` with fractional digits, with at least one digit
/// in all; the result must fit a signed 64-bit count.
pub open spec fn parse_amount(s: Seq<u8>) -> Option<int> {
    let d = unsigned_part(s);
    let p = first_dot(d);
    let ip = d.take(p);
    let fp = if p < d.len() {
        d.skip(p + 1)
    } else {
        Seq::empty()
    };
    if all_digits(ip) && all_digits(fp) && (ip.len() > 0 || fp.len() > 0) {
        let u = digits_value(ip) * 10000 + frac_units(fp);
        if u <= i64::MAX {
            Some(u)
        } else {
            None
        }
    } else {
        None
    }
}

proof fn lemma_digits_value_monotone(s: Seq<u8>, j: int, k: int)
    requires
        0 <= j <= k <= s.len(),
        all_digits(s),
    ensures
        digits_value(s.take(j)) <= digits_value(s.take(k)),
    decreases k - j,
{
    if j < k {
        lemma_digits_value_monotone(s, j, k - 1);
        assert(s.take(k).drop_last() =~= s.take(k - 1));
    }
}

proof fn lemma_first_dot(s: Seq<u8>, i: int)
    requires
        0 <= i <= s.len(),
        forall|j: int| 0 <= j < i ==> s[j] != 46,
        i == s.len() || s[i] == 46,
    ensures
        first_dot(s) == i,
    decreases i,
{
    if i > 0 {
        let t = s.drop_first();
        assert forall|j: int| 0 <= j < i - 1 implies t[j] != 46 by {
            assert(t[j] == s[j + 1]);
        }
        lemma_first_dot(t, i - 1);
    }
}

/// Reads the digits `b[start..end]` as a number no larger than `max`.
fn parse_digits(b: &[u8], start: usize, end: usize, max: u64) -> (r: Option<u64>)
    requires
        start <= end <= b@.len(),
        max <= i64::MAX,
    ensures
        ({
            let s = b@.subrange(start as int, end as int);
            r == if all_digits(s) && digits_value(s) <= max {
                Some(digits_value(s) as u64)
            } else {
                None
            }
        }),
{
    let ghost s = b@.subrange(start as int, end as int);
    let mut v: u64 = 0;
    let mut i: usize = start;
    while i < end
        invariant
            start <= i <= end <= b@.len(),
            s == b@.subrange(start as int, end as int),
            max <= i64::MAX,
            all_digits(s.take(i - start)),
            v == digits_value(s.take(i - start)),
            v <= max,
        decreases end - i,
    {
        let c = b[i];
        let ghost k = i - start;
        assert(s.take(k + 1).drop_last() =~= s.take(k));
        assert(s[k] == c);
        if c < 48 || c > 57 {
            return None;
        }
        let d = (c - 48) as u64;
        if d > max || v > (max - d) / 10 {
            proof {
                assert(digits_value(s.take(k + 1)) > max) by (nonlinear_arith)
                    requires
                        digits_value(s.take(k + 1)) == v * 10 + d,
                        d > max || v > (max - d) / 10,
                        d <= 9,
                ;
                if all_digits(s) {
                    lemma_digits_value_monotone(s, k + 1, s.len() as int);
                    assert(s.take(s.len() as int) =~= s);
                }
            }
            return None;
        }
        v = v * 10 + d;
        i = i + 1;
        proof {
            assert forall|j: int| 0 <= j < i - start implies is_digit(#[trigger] s.take(i - start)[j]) by {
                if j < k {
                    assert(s.take(i - start)[j] == s.take(k)[j]);
                }
            }
        }
    }
    assert(s.take(end - start) =~= s);
    Some(v)
}

/// Where the text of `b` starts once an optional leading `+` is skipped.
fn unsigned_start(b: &[u8]) -> (r: usize)
    ensures
        r <= b@.len(),
        b@.subrange(r as int, b@.len() as int) == unsigned_part(b@),
{
    if b.len() > 0 && b[0] == 43 {
        assert(b@.subrange(1, b@.len() as int) =~= b@.drop_first());
        1
    } else {
        assert(b@.subrange(0, b@.len() as int) =~= b@);
        0
    }
}

/// Reads an unsigned integer field no larger than `max`.
pub fn parse_unsigned_field(s: &str, max: u64) -> (r: Option<u64>)
    requires
        max <= i64::MAX,
    ensures
        r == match parse_unsigned(s.spec_bytes()) {
            Some(n) => if n <= max {
                Some(n as u64)
            } else {
                None
            },
            None => None,
        },
{
    let b = s.as_bytes();
    let start = unsigned_start(b);
    if start == b.len() {
        return None;
    }
    parse_digits(b, start, b.len(), max)
}

/// Whether `b[start..end]` holds digits only.
fn digits_only(b: &[u8], start: usize, end: usize) -> (r: bool)
    requires
        start <= end <= b@.len(),
    ensures
        r == all_digits(b@.subrange(start as int, end as int)),
{
    let ghost s = b@.subrange(start as int, end as int);
    let mut i: usize = start;
    while i < end
        invariant
            start <= i <= end <= b@.len(),
            s == b@.subrange(start as int, end as int),
            forall|j: int| 0 <= j < i - start ==> is_digit(#[trigger] s[j]),
        decreases end - i,
    {
        assert(s[i - start] == b@[i as int]);
        if b[i] < 48 || b[i] > 57 {
            return false;
        }
        i = i + 1;
    }
    true
}

/// The digit at `b[start + i]` when that lies before `end`, else 0.
fn digit_or_zero(b: &[u8], start: usize, end: usize, i: usize) -> (r: u64)
    requires
        start <= end <= b@.len(),
        all_digits(b@.subrange(start as int, end as int)),
        i <= 4,
    ensures
        r == digit_at(b@.subrange(start as int, end as int), i as int),
        r <= 9,
{
    if i < end - start {
        assert(b@.subrange(start as int, end as int)[i as int] == b@[start + i]);
        (b[start + i] - 48) as u64
    } else {
        0
    }
}

impl Amount {
    /// Reads a decimal amount into ten-thousandths, as `parse_amount` describes.
    pub fn parse(s: &str) -> (r: Option<Amount>)
        ensures
            r is Some == parse_amount(s.spec_bytes()) is Some,
            r matches Some(a) ==> parse_amount(s.spec_bytes()) == Some(a@),
    {
        let b = s.as_bytes();
        let len = b.len();
        let start = unsigned_start(b);
        let ghost d = b@.subrange(start as int, len as int);
        let mut p: usize = start;
        while p < len && b[p] != 46
            invariant
                start <= p <= len == b@.len(),
                forall|j: int| start <= j < p ==> b@[j] != 46,
            decreases len - p,
        {
            p = p + 1;
        }
        proof {
            assert forall|j: int| 0 <= j < p - start implies d[j] != 46 by {
                assert(d[j] == b@[start + j]);
            }
            if p < len {
                assert(d[p - start] == b@[p as int]);
            }
            lemma_first_dot(d, p - start);
            assert(d.take(p - start) =~= b@.subrange(start as int, p as int));
        }
        let fstart: usize = if p < len {
            p + 1
        } else {
            len
        };
        proof {
            if p < len {
                assert(d.skip(p - start + 1) =~= b@.subrange(fstart as int, len as int));
            } else {
                assert(b@.subrange(fstart as int, len as int) =~= Seq::<u8>::empty());
            }
        }
        if p == start && fstart == len {
            return None;
        }
        if !digits_only(b, fstart, len) {
            return None;
        }
        let iv = match parse_digits(b, start, p, 922337203685477) {
            Some(v) => v,
            None => return None,
        };
        let ghost f = b@.subrange(fstart as int, len as int);
        let d0 = digit_or_zero(b, fstart, len, 0);
        let d1 = digit_or_zero(b, fstart, len, 1);
        let d2 = digit_or_zero(b, fstart, len, 2);
        let d3 = digit_or_zero(b, fstart, len, 3);
        let d4 = digit_or_zero(b, fstart, len, 4);
        let round: u64 = if len - fstart > 4 && d4 >= 5 {
            1
        } else {
            0
        };
        proof {
            if len - fstart > 4 {
                assert(f[4] - 48 == d4);
            }
        }
        let u: u64 = iv * 10000 + d0 * 1000 + d1 * 100 + d2 * 10 + d3 + round;
        if u > 9223372036854775807 {
            return None;
        }
        Some(Amount { units: u as i64 })
    }
}

/// The event that a record's fields describe, if they describe one.
pub open spec fn row_transaction(fields: Seq<Seq<u8>>) -> Option<Transaction> {
    if fields.len() < 3 {
        None
    } else {
        match (parse_unsigned(fields[1]), parse_unsigned(fields[2])) {
            (Some(c), Some(t)) => if c <= u16::MAX && t <= u32::MAX {
                let client = Client(c as u16);
                let tx_id = TransactionId(t as u32);
                let amount = if fields.len() > 3 {
                    parse_amount(fields[3])
                } else {
                    None
                };
                let kind = fields[0];
                if kind == "deposit".spec_bytes() {
                    match amount {
                        Some(a) => Some(Transaction::Deposit { client, tx_id, amount: Amount { units: a as i64 } }),
                        None => None,
                    }
                } else if kind == "withdrawal".spec_bytes() {
                    match amount {
                        Some(a) => Some(Transaction::Withdrawal { client, tx_id, amount: Amount { units: a as i64 } }),
                        None => None,
                    }
                } else if kind == "dispute".spec_bytes() {
                    Some(Transaction::Dispute { client, tx_id })
                } else if kind == "resolve".spec_bytes() {
                    Some(Transaction::Resolve { client, tx_id })
                } else if kind == "chargeback".spec_bytes() {
                    Some(Transaction::ChargeBack { client, tx_id })
                } else {
                    None
                }
            } else {
                None
            },
            _ => None,
        }
    }
}

fn same_bytes(a: &[u8], b: &[u8]) -> (r: bool)
    ensures
        r == (a@ == b@),
{
    if a.len() != b.len() {
        return false;
    }
    let mut i: usize = 0;
    while i < a.len()
        invariant
            a@.len() == b@.len(),
            i <= a@.len(),
            forall|j: int| 0 <= j < i ==> a@[j] == b@[j],
        decreases a@.len() - i,
    {
        if a[i] != b[i] {
            return false;
        }
        i = i + 1;
    }
    assert(a@ =~= b@);
    true
}

impl Transaction {
    /// Reads an event from a record of the form `type, client, tx, amount`.
    /// A record whose type is unknown, or whose required fields are missing or
    /// malformed, gives `None`.
    pub fn from_csv_row(csv_row: &StringRecord) -> (r: Option<Transaction>)
        ensures
            r == row_transaction(record_fields(*csv_row)),
    {
        let kind = match csv_row.get(0) {
            Some(k) => k,
            None => return None,
        };
        let client = match csv_row.get(1) {
            Some(f) => match parse_unsigned_field(f, 65535) {
                Some(c) => Client(c as u16),
                None => return None,
            },
            None => return None,
        };
        let tx_id = match csv_row.get(2) {
            Some(f) => match parse_unsigned_field(f, 4294967295) {
                Some(t) => TransactionId(t as u32),
                None => return None,
            },
            None => return None,
        };
        let amount = match csv_row.get(3) {
            Some(f) => Amount::parse(f),
            None => None,
        };
        let k = kind.as_bytes();
        if same_bytes(k, "deposit".as_bytes()) {
            match amount {
                Some(a) => Some(Transaction::Deposit { client, tx_id, amount: a }),
                None => None,
            }
        } else if same_bytes(k, "withdrawal".as_bytes()) {
            match amount {
                Some(a) => Some(Transaction::Withdrawal { client, tx_id, amount: a }),
                None => None,
            }
        } else if same_bytes(k, "dispute".as_bytes()) {
            Some(Transaction::Dispute { client, tx_id })
        } else if same_bytes(k, "resolve".as_bytes()) {
            Some(Transaction::Resolve { client, tx_id })
        } else if same_bytes(k, "chargeback".as_bytes()) {
            Some(Transaction::ChargeBack { client, tx_id })
        } else {
            None
        }
    }
}

} // verus!
