use payments_engine::amount::Amount;
use payments_engine::input::{parse_record, parse_unsigned, same_text, RecordError};
use payments_engine::model::{Transaction, TransactionKind};

fn dec(mantissa: i128, scale: u32) -> Amount {
    Amount::new(mantissa, scale).unwrap()
}

#[test]
fn same_text_compares_character_by_character() {
    assert!(same_text("", ""));
    assert!(same_text("deposit", "deposit"));
    assert!(!same_text("deposit", "deposi"));
    assert!(!same_text("deposit", "Deposit"));
    assert!(!same_text("deposit", "deposiT"));
    assert!(same_text("d\u{e9}p\u{f4}t", "d\u{e9}p\u{f4}t"));
    assert!(!same_text("d\u{e9}p\u{f4}t", "depot"));
}

#[test]
fn from_tag_knows_the_five_kinds() {
    assert_eq!(TransactionKind::from_tag("deposit"), Some(TransactionKind::Deposit));
    assert_eq!(TransactionKind::from_tag("withdrawal"), Some(TransactionKind::Withdrawal));
    assert_eq!(TransactionKind::from_tag("dispute"), Some(TransactionKind::Dispute));
    assert_eq!(TransactionKind::from_tag("resolve"), Some(TransactionKind::Resolve));
    assert_eq!(TransactionKind::from_tag("chargeback"), Some(TransactionKind::Chargeback));
}

#[test]
fn from_tag_refuses_anything_else() {
    assert_eq!(TransactionKind::from_tag(""), None);
    assert_eq!(TransactionKind::from_tag("Deposit"), None);
    assert_eq!(TransactionKind::from_tag("deposit "), None);
    assert_eq!(TransactionKind::from_tag("withdraw"), None);
    assert_eq!(TransactionKind::from_tag("refund"), None);
}

#[test]
fn parse_unsigned_reads_digits() {
    assert_eq!(parse_unsigned("0", u32::MAX), Some(0));
    assert_eq!(parse_unsigned("7", u32::MAX), Some(7));
    assert_eq!(parse_unsigned("007", u32::MAX), Some(7));
    assert_eq!(parse_unsigned("+42", u32::MAX), Some(42));
    assert_eq!(parse_unsigned("4294967295", u32::MAX), Some(4294967295));
    assert_eq!(parse_unsigned("65535", 65535), Some(65535));
    assert_eq!(parse_unsigned("0000000000000000000000065535", 65535), Some(65535));
}

#[test]
fn parse_unsigned_refuses_what_is_no_number_or_too_large() {
    assert_eq!(parse_unsigned("", u32::MAX), None);
    assert_eq!(parse_unsigned("+", u32::MAX), None);
    assert_eq!(parse_unsigned("-1", u32::MAX), None);
    assert_eq!(parse_unsigned("++1", u32::MAX), None);
    assert_eq!(parse_unsigned("1+", u32::MAX), None);
    assert_eq!(parse_unsigned("12a", u32::MAX), None);
    assert_eq!(parse_unsigned(" 1", u32::MAX), None);
    assert_eq!(parse_unsigned("1.0", u32::MAX), None);
    assert_eq!(parse_unsigned("4294967296", u32::MAX), None);
    assert_eq!(parse_unsigned("99999999999999999999999999", u32::MAX), None);
    assert_eq!(parse_unsigned("65536", 65535), None);
    assert_eq!(parse_unsigned("\u{663}", u32::MAX), None);
}

#[test]
fn parse_unsigned_agrees_with_the_standard_parser() {
    for text in ["0", "+0", "12", "+12", "-12", "", "+", "4294967295", "4294967296", "1 ", "0x1"] {
        assert_eq!(parse_unsigned(text, u32::MAX), text.parse::<u32>().ok());
        assert_eq!(
            parse_unsigned(text, 65535).map(|v| v as u16),
            text.parse::<u16>().ok()
        );
    }
}

#[test]
fn parse_record_reads_each_kind() {
    assert_eq!(
        parse_record("deposit", "1", "10", "5.0"),
        Ok(Transaction::Deposit { client_id: 1, id: 10, amount: dec(50, 1) })
    );
    assert_eq!(
        parse_record("withdrawal", "65535", "4294967295", "1.5000"),
        Ok(Transaction::Withdrawal { client_id: 65535, id: 4294967295, amount: dec(15, 1) })
    );
    assert_eq!(parse_record("dispute", "2", "10", ""), Ok(Transaction::Dispute { client_id: 2, id: 10 }));
    assert_eq!(parse_record("resolve", "2", "10", ""), Ok(Transaction::Resolve { client_id: 2, id: 10 }));
    assert_eq!(
        parse_record("chargeback", "2", "10", "not looked at"),
        Ok(Transaction::Chargeback { client_id: 2, id: 10 })
    );
}

#[test]
fn parse_record_keeps_the_scale_of_the_amount() {
    match parse_record("deposit", "1", "1", "2.7500") {
        Ok(Transaction::Deposit { amount, .. }) => {
            assert_eq!((amount.mantissa(), amount.scale()), (27500, 4));
        },
        other => panic!("{:?}", other),
    }
}

#[test]
fn parse_record_reports_a_bad_id() {
    assert_eq!(parse_record("deposit", "1", "x", "5.0"), Err(RecordError::BadTransactionId));
    assert_eq!(parse_record("deposit", "1", "4294967296", "5.0"), Err(RecordError::BadTransactionId));
    assert_eq!(parse_record("nonsense", "x", "", "x"), Err(RecordError::BadTransactionId));
}

#[test]
fn parse_record_reports_an_unknown_kind() {
    assert_eq!(parse_record("refund", "1", "1", "5.0"), Err(RecordError::UnknownKind));
    assert_eq!(parse_record("", "x", "1", "x"), Err(RecordError::UnknownKind));
}

#[test]
fn parse_record_reports_a_bad_client() {
    assert_eq!(parse_record("deposit", "65536", "1", "5.0"), Err(RecordError::BadClientId));
    assert_eq!(parse_record("dispute", "", "1", ""), Err(RecordError::BadClientId));
    assert_eq!(parse_record("withdrawal", "-1", "1", "x"), Err(RecordError::BadClientId));
}

#[test]
fn parse_record_reports_a_bad_amount() {
    assert_eq!(parse_record("deposit", "1", "1", ""), Err(RecordError::BadAmount));
    assert_eq!(parse_record("withdrawal", "1", "1", "five"), Err(RecordError::BadAmount));
}
