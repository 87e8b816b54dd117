use powchain::encoding::hex_of_bytes;
use powchain::wallet::{verify, SigError, Wallet};

#[test]
fn test_basic_creation() {
    let w = Wallet::new(111);

    let public_key_as_hex = hex_of_bytes(&w.public_key);

    assert_eq!(w.balance, 111);
    assert_eq!(public_key_as_hex.len(), 66);
    assert_eq!(public_key_as_hex.trim().len(), 66);
}

#[test]
fn test_valid_sign_data() {
    let w = Wallet::new(111);

    let s = w.sign("foo").unwrap();
    assert!(w.verify("foo", &s).unwrap());
}

#[test]
fn test_invalid_sign_data() {
    let w = Wallet::new(111);
    let s = w.sign("foo").unwrap();
    assert!(!w.verify("bar", &s).unwrap());
}

#[test]
fn transaction_not_created() {
    let w = Wallet::new(111);
    let to_w = Wallet::new(0);
    let r = w.create_transaction(11111, &to_w.public_key);

    assert!(r.is_none());
}

#[test]
fn transaction_created() {
    let w = Wallet::new(111);
    let to_w = Wallet::new(0);
    let r = w.create_transaction(1, &to_w.public_key);

    assert!(r.is_some());
}

#[test]
fn transaction_has_valid_props() {
    let w = Wallet::new(111);
    let to_w = Wallet::new(0);
    let r = w.create_transaction(1, &to_w.public_key).unwrap();

    assert_eq!(r.input.1, 111);
    assert_eq!(r.input.2, w.public_key);
    assert_eq!(r.output_map.get(&to_w.public_key).unwrap(), 1);
}

#[test]
fn verify_rejects_signature_over_other_data() {
    let w = Wallet::new(111);
    let s = w.sign("foo").unwrap();
    assert!(!verify("bar", &s, &w.public_key).unwrap());
}

#[test]
fn verify_rejects_foreign_public_key() {
    let w = Wallet::new(111);
    let other = Wallet::new(111);
    let s = w.sign("foo").unwrap();
    assert!(!verify("foo", &s, &other.public_key).unwrap());
}

#[test]
fn malformed_signature_bytes_are_an_error() {
    let w = Wallet::new(111);
    let r = w.verify("foo", &vec![0u8; 63]);
    assert_eq!(r.err().unwrap(), SigError::InvalidSignature);
}

#[test]
fn malformed_public_key_is_an_error() {
    let w = Wallet::new(111);
    let s = w.sign("foo").unwrap();
    let r = verify("foo", &s, &vec![1u8; 3]);
    assert_eq!(r.err().unwrap(), SigError::InvalidPublicKey);
}

#[test]
fn keys_differ_between_wallets() {
    let a = Wallet::new(1);
    let b = Wallet::new(1);
    assert_eq!(a.public_key.len(), 33);
    assert_eq!(b.public_key.len(), 33);
    assert_ne!(a.public_key, b.public_key);
}
