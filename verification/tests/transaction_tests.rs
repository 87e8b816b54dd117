use powchain::transaction::{OutputMap, Transaction, TxError};
use powchain::wallet::Wallet;

#[test]
fn empty_output_map_has_nothing() {
    let mut m = OutputMap::new();
    assert_eq!(m.len(), 0);
    assert!(m.values().is_empty());
    assert_eq!(m.total(), 0);
    assert!(m.get(&vec![1, 2, 3]).is_none());
    assert!(!m.set_value(&vec![1, 2, 3], 7));
    assert_eq!(m.len(), 0);
}

#[test]
fn test_has_id() {
    let f_wallet = Wallet::new(111);
    let to_wallet_key = Wallet::new(111).public_key;

    let tx = Transaction::new(&f_wallet, &to_wallet_key, 11).unwrap();
    assert!(tx.id.len() > 0);
}

#[test]
fn transaction_ids_are_hyphenated_and_unique() {
    let f_wallet = Wallet::new(111);
    let to_wallet_key = Wallet::new(111).public_key;

    let a = Transaction::new(&f_wallet, &to_wallet_key, 11).unwrap();
    let b = Transaction::new(&f_wallet, &to_wallet_key, 11).unwrap();
    assert_eq!(a.id.len(), 36);
    assert_eq!(a.id.chars().filter(|c| *c == '-').count(), 4);
    assert_ne!(a.id, b.id);
}

#[test]
fn test_state_after_transaction() {
    let f_wallet = Wallet::new(111);
    let to_wallet_key = Wallet::new(111).public_key;

    let tx = Transaction::new(&f_wallet, &to_wallet_key, 11).unwrap();
    assert_eq!(tx.output_map.get(&f_wallet.public_key).unwrap(), 111 - 11);
    assert_eq!(tx.output_map.get(&to_wallet_key).unwrap(), 11);
}

#[test]
fn test_transaction_valid() {
    let f_wallet = Wallet::new(111);
    let to_wallet_key = Wallet::new(111).public_key;

    let tx = Transaction::new(&f_wallet, &to_wallet_key, 11).unwrap();
    assert_eq!(Transaction::is_valid_transaction(&tx), true);
}

#[test]
fn test_transaction_invalid() {
    let f_wallet = Wallet::new(111);
    let to_wallet_key = Wallet::new(111).public_key;

    let mut tx = Transaction::new(&f_wallet, &to_wallet_key, 11).unwrap();
    assert!(tx.output_map.set_value(&f_wallet.public_key, 1));
    assert_eq!(Transaction::is_valid_transaction(&tx), false);
    assert!(tx.output_map.set_value(&f_wallet.public_key, 111 - 11));
    assert_eq!(Transaction::is_valid_transaction(&tx), true);
    tx.input.3 = Wallet::new(228).sign("foo").unwrap();
    assert_eq!(Transaction::is_valid_transaction(&tx), false);
}

#[test]
fn test_transaction_next_transaction() {
    let f_wallet = Wallet::new(111);
    let to_wallet_key = Wallet::new(111).public_key;

    let mut tx = Transaction::new(&f_wallet, &to_wallet_key, 11).unwrap();
    assert_eq!(Transaction::is_valid_transaction(&tx), true);
    let fst_signature = tx.input.3.clone();

    let to_wallet_key2 = Wallet::new(5).public_key;
    tx.update(&f_wallet, &to_wallet_key2, 5).unwrap();

    assert_eq!(tx.output_map.get(&f_wallet.public_key).unwrap(), 95);
    assert_eq!(tx.output_map.get(&to_wallet_key).unwrap(), 11);
    assert_eq!(tx.output_map.get(&to_wallet_key2).unwrap(), 5);
    assert_eq!(tx.input.1, tx.output_map.values().iter().sum::<i64>());
    assert_ne!(tx.input.3, fst_signature);
}

#[test]
fn test_transaction_next_transaction_with_same_recipient() {
    let f_wallet = Wallet::new(111);
    let to_wallet_key = Wallet::new(111).public_key;

    let mut tx = Transaction::new(&f_wallet, &to_wallet_key, 11).unwrap();
    assert_eq!(Transaction::is_valid_transaction(&tx), true);
    tx.update(&f_wallet, &to_wallet_key, 5).unwrap();

    assert_eq!(tx.output_map.get(&f_wallet.public_key).unwrap(), 95);
    assert_eq!(tx.output_map.get(&to_wallet_key).unwrap(), 16);
    assert_eq!(tx.input.1, tx.output_map.values().iter().sum::<i64>());
}

#[test]
fn transaction_from_lower_than_amount_is_refused() {
    let f_wallet = Wallet::new(111);
    let to_wallet_key = Wallet::new(111).public_key;

    let r = Transaction::new(&f_wallet, &to_wallet_key, 11111);
    assert_eq!(r.err().unwrap(), TxError::InsufficientFunds);
}

#[test]
fn transaction_update_high_amount_is_refused() {
    let f_wallet = Wallet::new(111);
    let to_wallet_key = Wallet::new(111).public_key;

    let mut tx = Transaction::new(&f_wallet, &to_wallet_key, 11).unwrap();
    let before = tx.output_map.values();
    let to_wallet_key2 = Wallet::new(5).public_key;
    let r = tx.update(&f_wallet, &to_wallet_key2, 11111);
    assert_eq!(r.err().unwrap(), TxError::InsufficientFunds);
    assert_eq!(tx.output_map.values(), before);
}

#[test]
fn transaction_to_self_is_refused() {
    let f_wallet = Wallet::new(111);
    let r = Transaction::new(&f_wallet, &f_wallet.public_key, 5);
    assert_eq!(r.err().unwrap(), TxError::SelfTransfer);
}

#[test]
fn transaction_update_unknown_sender_is_refused() {
    let f_wallet = Wallet::new(111);
    let stranger = Wallet::new(50);
    let to_wallet_key = Wallet::new(111).public_key;

    let mut tx = Transaction::new(&f_wallet, &to_wallet_key, 11).unwrap();
    let r = tx.update(&stranger, &to_wallet_key, 1);
    assert_eq!(r.err().unwrap(), TxError::UnknownSender);
}

#[test]
fn transaction_update_overflow_is_refused() {
    let f_wallet = Wallet::new(111);
    let to_wallet_key = Wallet::new(111).public_key;

    let mut tx = Transaction::new(&f_wallet, &to_wallet_key, 11).unwrap();
    assert!(tx.output_map.set_value(&to_wallet_key, i64::MAX));
    let r = tx.update(&f_wallet, &to_wallet_key, 1);
    assert_eq!(r.err().unwrap(), TxError::AmountOverflow);
}

#[test]
fn transaction_update_to_self_resigns_only() {
    let f_wallet = Wallet::new(111);
    let to_wallet_key = Wallet::new(111).public_key;

    let mut tx = Transaction::new(&f_wallet, &to_wallet_key, 11).unwrap();
    let values_before = tx.output_map.values();
    tx.update(&f_wallet, &f_wallet.public_key, 7).unwrap();
    assert_eq!(tx.output_map.values(), values_before);
    assert!(Transaction::is_valid_transaction(&tx));
}

#[test]
fn transaction_update_twice_conserves_and_resigns() {
    let f_wallet = Wallet::new(111);
    let to_wallet_key = Wallet::new(111).public_key;

    let mut tx = Transaction::new(&f_wallet, &to_wallet_key, 11).unwrap();
    let sig0 = tx.input.3.clone();
    tx.update(&f_wallet, &to_wallet_key, 5).unwrap();
    let sig1 = tx.input.3.clone();
    let to_wallet_key2 = Wallet::new(0).public_key;
    tx.update(&f_wallet, &to_wallet_key2, 3).unwrap();
    let sig2 = tx.input.3.clone();

    assert_eq!(tx.output_map.values().iter().sum::<i64>(), tx.input.1);
    assert_eq!(tx.input.1, 111);
    assert_ne!(sig1, sig0);
    assert_ne!(sig2, sig0);
    assert_ne!(sig2, sig1);
    assert!(Transaction::is_valid_transaction(&tx));
}
