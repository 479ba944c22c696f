//! Reading a transaction from the four text fields of an input row: its
//! kind, its client, its id and its amount.

use vstd::prelude::*;
use vstd::string::StrSliceExecFns;

use crate::amount::{parsed, Amount};
use crate::model::{Transaction, TransactionKind};

verus! {

/// Why a row is not a transaction.
#[derive(Clone, Copy, Debug, PartialEq, Eq, Structural)]
pub enum RecordError {
    /// The id is not an unsigned 32-bit integer.
    BadTransactionId,
    /// The client is not an unsigned 16-bit integer.
    BadClientId,
    /// The amount of a deposit or withdrawal is not a decimal number.
    BadAmount,
    /// The kind is none of the five.
    UnknownKind,
}

/// Whether a character is a decimal digit.
pub open spec fn is_digit(c: char) -> bool {
    '0' <= c <= '9'
}

/// The number that a run of decimal digits stands for.
pub open spec fn digits_value(digits: Seq<char>) -> nat
    decreases digits.len(),
{
    if digits.len() == 0 {
        0
    } else {
        digits_value(digits.drop_last()) * 10 + (digits.last() as nat - '0' as nat) as nat
    }
}

/// The digits of a number's text: the text itself, without a leading `+`.
pub open spec fn digits_of(text: Seq<char>) -> Seq<char> {
    if text.len() > 0 && text[0] == '+' {
        text.skip(1)
    } else {
        text
    }
}

/// The unsigned integer that a text stands for: one or more decimal digits,
/// with or without a leading `+`, giving a number of at most `max`.
pub open spec fn unsigned_of_text(text: Seq<char>, max: nat) -> Option<nat> {
    let digits = digits_of(text);
    if digits.len() > 0 && (forall|i: int| 0 <= i < digits.len() ==> is_digit(#[trigger] digits[i]))
        && digits_value(digits) <= max {
        Some(digits_value(digits))
    } else {
        None
    }
}

/// The kind that a tag names.
pub open spec fn kind_of_tag(tag: Seq<char>) -> Option<TransactionKind> {
    if tag == "deposit"@ {
        Some(TransactionKind::Deposit)
    } else if tag == "withdrawal"@ {
        Some(TransactionKind::Withdrawal)
    } else if tag == "dispute"@ {
        Some(TransactionKind::Dispute)
    } else if tag == "resolve"@ {
        Some(TransactionKind::Resolve)
    } else if tag == "chargeback"@ {
        Some(TransactionKind::Chargeback)
    } else {
        None
    }
}

/// The transaction that the four fields of a row stand for. The id is read
/// first, then the kind, then the client, and for a deposit or withdrawal
/// the amount; the first field that cannot be read decides the error. The
/// amount of the other three kinds is not looked at.
pub open spec fn record_of_fields(
    kind: Seq<char>,
    client: Seq<char>,
    id: Seq<char>,
    amount: Seq<char>,
) -> Result<Transaction, RecordError> {
    match (
        unsigned_of_text(id, u32::MAX as nat),
        kind_of_tag(kind),
        unsigned_of_text(client, u16::MAX as nat),
    ) {
        (None, _, _) => Err(RecordError::BadTransactionId),
        (Some(_), None, _) => Err(RecordError::UnknownKind),
        (Some(_), Some(_), None) => Err(RecordError::BadClientId),
        (Some(id), Some(kind), Some(client)) => {
            let (id, client_id) = (id as u32, client as u16);
            match kind {
                TransactionKind::Deposit => match parsed(amount) {
                    Some(amount) => Ok(Transaction::Deposit { client_id, id, amount }),
                    None => Err(RecordError::BadAmount),
                },
                TransactionKind::Withdrawal => match parsed(amount) {
                    Some(amount) => Ok(Transaction::Withdrawal { client_id, id, amount }),
                    None => Err(RecordError::BadAmount),
                },
                TransactionKind::Dispute => Ok(Transaction::Dispute { client_id, id }),
                TransactionKind::Resolve => Ok(Transaction::Resolve { client_id, id }),
                TransactionKind::Chargeback => Ok(Transaction::Chargeback { client_id, id }),
            }
        },
    }
}

/// Whether two texts are the same.
pub fn same_text(a: &str, b: &str) -> (r: bool)
    ensures
        r == (a@ == b@),
{
    let n = a.unicode_len();
    if n != b.unicode_len() {
        return false;
    }
    let mut i: usize = 0;
    while i < n
        invariant
            i <= n,
            n == a@.len(),
            n == b@.len(),
            forall|j: int| 0 <= j < i ==> a@[j] == b@[j],
        decreases n - i,
    {
        if a.get_char(i) != b.get_char(i) {
            return false;
        }
        i = i + 1;
    }
    assert(a@ =~= b@);
    true
}

/// A run of digits stands for at least what any of its beginnings stands
/// for.
proof fn lemma_digits_value_grows(digits: Seq<char>, n: int)
    requires
        0 <= n <= digits.len(),
    ensures
        digits_value(digits.take(n)) <= digits_value(digits),
    decreases digits.len() - n,
{
    if n < digits.len() {
        lemma_digits_value_grows(digits, n + 1);
        assert(digits.take(n + 1).drop_last() == digits.take(n));
    } else {
        assert(digits.take(n) == digits);
    }
}

/// Reads an unsigned integer of at most `max`.
pub fn parse_unsigned(text: &str, max: u32) -> (r: Option<u32>)
    ensures
        unsigned_of_text(text@, max as nat) == match r {
            Some(v) => Some(v as nat),
            None => None,
        },
{
    let n = text.unicode_len();
    let start: usize = if n > 0 && text.get_char(0) == '+' {
        1
    } else {
        0
    };
    if start == n {
        return None;
    }
    let ghost digits = digits_of(text@);
    assert(digits.len() == n - start);
    let mut value: u64 = 0;
    let mut i: usize = start;
    while i < n
        invariant
            start <= i <= n,
            n == text@.len(),
            digits == digits_of(text@),
            digits.len() == n - start,
            forall|j: int| 0 <= j < digits.len() ==> digits[j] == text@[j + start],
            forall|j: int| 0 <= j < i - start ==> is_digit(#[trigger] digits[j]),
            value == digits_value(digits.take(i - start)),
            value <= max,
        decreases n - i,
    {
        let c = text.get_char(i);
        if !(c >= '0' && c <= '9') {
            assert(!is_digit(digits[i - start]));
            return None;
        }
        let digit: u64 = (c as u32 - '0' as u32) as u64;
        let next: u64 = value * 10 + digit;
        proof {
            assert(digits.take(i + 1 - start).drop_last() == digits.take(i - start));
            assert(digits.take(i + 1 - start).last() == c);
            assert(next == digits_value(digits.take(i + 1 - start)));
        }
        if next > max as u64 {
            proof {
                if forall|j: int| 0 <= j < digits.len() ==> is_digit(#[trigger] digits[j]) {
                    lemma_digits_value_grows(digits, i + 1 - start);
                }
            }
            return None;
        }
        value = next;
        i = i + 1;
    }
    assert(digits.take(n - start) == digits);
    Some(value as u32)
}

impl TransactionKind {
    /// The kind that a tag names: one of `deposit`, `withdrawal`, `dispute`,
    /// `resolve` and `chargeback`.
    pub fn from_tag(tag: &str) -> (r: Option<TransactionKind>)
        ensures
            r == kind_of_tag(tag@),
    {
        if same_text(tag, "deposit") {
            Some(TransactionKind::Deposit)
        } else if same_text(tag, "withdrawal") {
            Some(TransactionKind::Withdrawal)
        } else if same_text(tag, "dispute") {
            Some(TransactionKind::Dispute)
        } else if same_text(tag, "resolve") {
            Some(TransactionKind::Resolve)
        } else if same_text(tag, "chargeback") {
            Some(TransactionKind::Chargeback)
        } else {
            None
        }
    }
}

/// Reads a transaction from the four fields of a row.
pub fn parse_record(kind: &str, client: &str, id: &str, amount: &str) -> (r: Result<
    Transaction,
    RecordError,
>)
    ensures
        r == record_of_fields(kind@, client@, id@, amount@),
{
    let id = match parse_unsigned(id, u32::MAX) {
        Some(id) => id,
        None => {
            return Err(RecordError::BadTransactionId);
        },
    };
    let kind = match TransactionKind::from_tag(kind) {
        Some(kind) => kind,
        None => {
            return Err(RecordError::UnknownKind);
        },
    };
    let client_id = match parse_unsigned(client, 0xffff) {
        Some(client) => client as u16,
        None => {
            return Err(RecordError::BadClientId);
        },
    };
    match kind {
        TransactionKind::Deposit => match Amount::parse(amount) {
            Some(amount) => Ok(Transaction::Deposit { client_id, id, amount }),
            None => Err(RecordError::BadAmount),
        },
        TransactionKind::Withdrawal => match Amount::parse(amount) {
            Some(amount) => Ok(Transaction::Withdrawal { client_id, id, amount }),
            None => Err(RecordError::BadAmount),
        },
        TransactionKind::Dispute => Ok(Transaction::Dispute { client_id, id }),
        TransactionKind::Resolve => Ok(Transaction::Resolve { client_id, id }),
        TransactionKind::Chargeback => Ok(Transaction::Chargeback { client_id, id }),
    }
}

} // verus!
