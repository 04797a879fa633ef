//! The words of the input table.

use txreader::table::{header_is_valid, kind_from_name};
use txreader::transaction::TransactionKind::{Chargeback, Deposit, Dispute, Resolve, Withdrawal};

fn header(names: &[&str]) -> Vec<Vec<u8>> {
    names.iter().map(|name| name.as_bytes().to_vec()).collect()
}

#[test]
fn the_five_kinds_have_names() {
    assert_eq!(kind_from_name(b"deposit"), Some(Deposit));
    assert_eq!(kind_from_name(b"withdrawal"), Some(Withdrawal));
    assert_eq!(kind_from_name(b"dispute"), Some(Dispute));
    assert_eq!(kind_from_name(b"resolve"), Some(Resolve));
    assert_eq!(kind_from_name(b"chargeback"), Some(Chargeback));
}

#[test]
fn a_kind_is_named_in_any_case() {
    assert_eq!(kind_from_name(b"Deposit"), Some(Deposit));
    assert_eq!(kind_from_name(b"DEPOSIT"), Some(Deposit));
    assert_eq!(kind_from_name(b"wIthDrawAL"), Some(Withdrawal));
    assert_eq!(kind_from_name(b"DISPUTE"), Some(Dispute));
    assert_eq!(kind_from_name(b"Resolve"), Some(Resolve));
    assert_eq!(kind_from_name(b"ChargeBack"), Some(Chargeback));
}

#[test]
fn blanks_around_a_kind_are_left_out() {
    assert_eq!(kind_from_name(b" deposit"), Some(Deposit));
    assert_eq!(kind_from_name(b"deposit  "), Some(Deposit));
    assert_eq!(kind_from_name(b"\t\r\n withdrawal \x0c\n"), Some(Withdrawal));
    assert_eq!(kind_from_name(b"   Dispute   "), Some(Dispute));
}

#[test]
fn other_words_name_no_kind() {
    assert_eq!(kind_from_name(b""), None);
    assert_eq!(kind_from_name(b"   "), None);
    assert_eq!(kind_from_name(b"deposi"), None);
    assert_eq!(kind_from_name(b"deposits"), None);
    assert_eq!(kind_from_name(b"with drawal"), None);
    assert_eq!(kind_from_name("dépôt".as_bytes()), None);
    assert_eq!(kind_from_name(b"bad line"), None);
    assert_eq!(kind_from_name(b"de posit"), None);
    assert_eq!(kind_from_name(b"\x0bdeposit"), None);
    assert_eq!(kind_from_name(b"deposit\0"), None);
    // only letters have another case
    assert_eq!(kind_from_name(b"DEPOSI\x54"), Some(Deposit));
    assert_eq!(kind_from_name(b"deposi\x14"), None);
    assert_eq!(kind_from_name(b"\x44\x45\x50\x4f\x53\x49\x54"), Some(Deposit));
    assert_eq!(kind_from_name(b"[eposit"), None);
    assert_eq!(kind_from_name(b"@eposit"), None);
}

#[test]
fn the_header_names_the_four_columns_in_their_order() {
    assert!(header_is_valid(&header(&["type", "client", "tx", "amount"])));
    assert!(header_is_valid(&header(&[" type", "client ", "\ttx", " amount \r"])));
}

#[test]
fn any_other_header_is_malformed() {
    assert!(!header_is_valid(&header(&[])));
    assert!(!header_is_valid(&header(&["type", "client", "tx"])));
    assert!(!header_is_valid(&header(&["type", "client", "tx", "amount", ""])));
    assert!(!header_is_valid(&header(&["client", "type", "tx", "amount"])));
    assert!(!header_is_valid(&header(&["type", "client", "tx", "amounts"])));
    assert!(!header_is_valid(&header(&["Type", "client", "tx", "amount"])));
    assert!(!header_is_valid(&header(&["type", "client_id", "tx", "amount"])));
    assert!(!header_is_valid(&header(&["type", "client", "t x", "amount"])));
    assert!(!header_is_valid(&header(&["", "", "", ""])));
    assert!(!header_is_valid(&header(&["type,client,tx,amount"])));
}
