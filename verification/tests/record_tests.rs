use payments_engine::transaction::{Field, InputTransaction, RecordError};
use payments_engine::types::UnsignedDecimal;

fn amount(s: &str) -> UnsignedDecimal {
    UnsignedDecimal::parse(s).unwrap()
}

fn strings(v: &[&str]) -> Vec<String> {
    v.iter().map(|s| s.to_string()).collect()
}

fn header() -> Vec<String> {
    strings(&["type", "client", "tx", "amount"])
}

fn read(fields: &[&str]) -> Result<InputTransaction, RecordError> {
    InputTransaction::from_record(&header(), &strings(fields))
}

#[test]
fn record_deposit() {
    match read(&["deposit", "1", "2", "1.5"]).unwrap() {
        InputTransaction::Deposit { client, tx, amount } => {
            assert_eq!(client, 1);
            assert_eq!(tx, 2);
            assert_eq!(amount, self::amount("1.5"));
        }
        other => panic!("unexpected {:?}", other),
    }
}

#[test]
fn record_type_ignores_case_and_space() {
    match read(&["  WithDrawal ", "3", "4", "2"]).unwrap() {
        InputTransaction::Withdrawal { client, tx, amount } => {
            assert_eq!((client, tx), (3, 4));
            assert_eq!(amount, self::amount("2"));
        }
        other => panic!("unexpected {:?}", other),
    }
    assert!(matches!(read(&["CHARGEBAC\u{212A}", "1", "1", ""]), Ok(InputTransaction::Chargeback { client: 1, tx: 1 })));
}

#[test]
fn record_dispute_without_amount() {
    assert!(matches!(read(&["dispute", "1", "7"]), Ok(InputTransaction::Dispute { client: 1, tx: 7 })));
    assert!(matches!(read(&["resolve", "1", "7", ""]), Ok(InputTransaction::Resolve { client: 1, tx: 7 })));
}

#[test]
fn record_hex_and_plus_numbers() {
    assert!(matches!(read(&["dispute", "0x1F", "+12"]), Ok(InputTransaction::Dispute { client: 31, tx: 12 })));
}

#[test]
fn record_errors() {
    assert_eq!(read(&["deposit", "1", "2"]).unwrap_err(), RecordError::MissingField(Field::Amount));
    assert_eq!(read(&["deposit", "1", "2", "-3"]).unwrap_err(), RecordError::InvalidValue);
    assert_eq!(read(&["deposit", "70000", "2", "3"]).unwrap_err(), RecordError::InvalidValue);
    assert_eq!(read(&["deposit", "-1", "2", "3"]).unwrap_err(), RecordError::InvalidValue);
    assert_eq!(read(&["deposit", "1"]).unwrap_err(), RecordError::MissingValue);
    assert_eq!(read(&["transfer", "1", "2", "3"]).unwrap_err(), RecordError::UnknownType);
    let dup = strings(&["type", "client", "client"]);
    assert_eq!(
        InputTransaction::from_record(&dup, &strings(&["dispute", "1", "1"])).unwrap_err(),
        RecordError::DuplicateField(Field::Client)
    );
    let unknown = strings(&["type", "client", "tx", "memo"]);
    assert_eq!(
        InputTransaction::from_record(&unknown, &strings(&["dispute", "1", "1", "x"])).unwrap_err(),
        RecordError::UnknownField
    );
    let no_tx = strings(&["type", "client"]);
    assert_eq!(
        InputTransaction::from_record(&no_tx, &strings(&["dispute", "1"])).unwrap_err(),
        RecordError::MissingField(Field::Tx)
    );
}

#[test]
fn record_keeps_fifth_decimal_place() {
    match read(&["withdrawal", "1", "2", "1.23456"]).unwrap() {
        InputTransaction::Withdrawal { amount: a, .. } => {
            assert_eq!((a.coefficient, a.scale), (123456, 5));
        }
        other => panic!("unexpected {:?}", other),
    }
    assert!(matches!(read(&["dispute", "1", "2", "1.23456"]), Ok(InputTransaction::Dispute { client: 1, tx: 2 })));
}

#[test]
fn record_refuses_overlong_exponent() {
    assert_eq!(read(&["deposit", "1", "2", "1.5e-2147483648"]).unwrap_err(), RecordError::InvalidValue);
}

#[test]
fn record_extra_columns_ignored() {
    let h = strings(&["type", "client", "tx"]);
    assert!(matches!(
        InputTransaction::from_record(&h, &strings(&["dispute", "2", "3", "junk"])),
        Ok(InputTransaction::Dispute { client: 2, tx: 3 })
    ));
}

#[test]
fn record_columns_in_any_order() {
    let h = strings(&["amount", "tx", "client", "type"]);
    match InputTransaction::from_record(&h, &strings(&["4", "9", "8", "deposit"])).unwrap() {
        InputTransaction::Deposit { client, tx, amount } => {
            assert_eq!((client, tx), (8, 9));
            assert_eq!(amount, self::amount("4"));
        }
        other => panic!("unexpected {:?}", other),
    }
}

#[test]
fn transaction_accessors() {
    let t = read(&["deposit", "5", "6", "1"]).unwrap();
    assert_eq!(t.client(), 5);
    assert_eq!(t.tx(), 6);
    let d = InputTransaction::Chargeback { client: 9, tx: 10 };
    assert_eq!(d.client(), 9);
    assert_eq!(d.tx(), 10);
}
