//! Wallets: an elliptic-curve keypair with a balance, and signing and
//! verification over SHA-256 digests of message strings.

use crate::hashing::{sha256_of, sha256_str};
use crate::transaction::Transaction;
use vstd::prelude::*;

verus! {

/// The compressed serialization (33 bytes) of the public key derived from a
/// 32-byte secret key. Key derivation is deterministic, so this is a
/// function of the secret key bytes alone.
pub uninterp spec fn pubkey_of(sk: Seq<u8>) -> Seq<u8>;

/// The compact serialization (64 bytes) of the ECDSA signature over a
/// 32-byte digest by a secret key. The signing scheme draws its nonce
/// deterministically (RFC 6979), so this is a function of the two byte
/// strings alone.
pub uninterp spec fn ecdsa_sig(sk: Seq<u8>, digest: Seq<u8>) -> Seq<u8>;

/// Whether `pk` parses as a serialized public key, `digest` is a 32-byte
/// message digest, `sig` parses as a compact signature, and the ECDSA
/// verification of `sig` over `digest` under `pk` succeeds. A pure function
/// of the three byte strings.
pub uninterp spec fn ecdsa_verifies(pk: Seq<u8>, digest: Seq<u8>, sig: Seq<u8>) -> bool;

/// Whether 32 bytes are a usable secret key (nonzero and below the curve
/// order): the success condition of `SecretKey::from_secret_bytes`, a pure
/// predicate of the bytes.
pub uninterp spec fn valid_sk(sk: Seq<u8>) -> bool;

/// Whether bytes parse as a serialized public key: the success condition of
/// `PublicKey::from_slice`, a pure predicate of the bytes.
pub uninterp spec fn parses_pk(pk: Seq<u8>) -> bool;

/// Whether bytes parse as a compact ECDSA signature: the success condition
/// of `Signature::from_compact`, a pure predicate of the bytes.
pub uninterp spec fn parses_sig(sig: Seq<u8>) -> bool;

/// A cryptographic failure: malformed key, digest or signature bytes.
#[derive(Debug, Clone, Copy, PartialEq, Eq, Structural)]
pub enum SigError {
    InvalidSecretKey,
    InvalidPublicKey,
    InvalidMessage,
    InvalidSignature,
}

/// Relies on `secp256k1::generate_keypair`, `SecretKey::to_secret_bytes`
/// and `PublicKey::serialize`: a fresh random keypair; the secret key is 32
/// bytes and usable for signing, the public key is derived from the secret
/// key alone and serializes to 33 bytes in compressed form, which parses
/// back.
#[verifier::external_body]
fn generate_keypair_bytes() -> (r: (Vec<u8>, Vec<u8>))
    ensures
        r.0@.len() == 32,
        r.1@.len() == 33,
        r.1@ == pubkey_of(r.0@),
        valid_sk(r.0@),
        parses_pk(r.1@),
{
    let (sk, pk) = secp256k1::generate_keypair(&mut secp256k1::rand::rng());
    (sk.to_secret_bytes().to_vec(), pk.serialize().to_vec())
}

/// Relies on `secp256k1::ecdsa::sign` (deterministic RFC 6979 nonces,
/// infallible for a parsed key and 32-byte digest) and
/// `Signature::serialize_compact`: the compact 64-byte signature over a
/// 32-byte digest, which parses back and verifies under the public key
/// derived from the signing key.
#[verifier::external_body]
fn sign_digest(sk: &Vec<u8>, digest: &Vec<u8>) -> (r: Result<Vec<u8>, SigError>)
    ensures
        r matches Ok(s) ==> s@ == ecdsa_sig(sk@, digest@) && s@.len() == 64 && parses_sig(s@)
            && ecdsa_verifies(pubkey_of(sk@), digest@, s@),
        sk@.len() == 32 && valid_sk(sk@) && digest@.len() == 32 ==> r is Ok,
{
    let arr: [u8; 32] = sk.as_slice().try_into().map_err(|_| SigError::InvalidSecretKey)?;
    let key = secp256k1::SecretKey::from_secret_bytes(arr).map_err(|_| SigError::InvalidSecretKey)?;
    let dig: [u8; 32] = digest.as_slice().try_into().map_err(|_| SigError::InvalidMessage)?;
    let sig = secp256k1::ecdsa::sign(secp256k1::Message::from_digest(dig), &key);
    Ok(sig.serialize_compact().to_vec())
}

/// Relies on `secp256k1::ecdsa::verify`, `PublicKey::from_slice` and
/// `Signature::from_compact`: whether the signature bytes parse and verify
/// for the digest under the public key; an error reports exactly the bytes
/// that do not parse at all, in which case verification cannot succeed.
#[verifier::external_body]
fn verify_digest(pk: &Vec<u8>, digest: &Vec<u8>, sig: &Vec<u8>) -> (r: Result<bool, SigError>)
    ensures
        r matches Ok(b) ==> b == ecdsa_verifies(pk@, digest@, sig@),
        r is Err ==> !ecdsa_verifies(pk@, digest@, sig@),
        (r is Err) == !(parses_pk(pk@) && digest@.len() == 32 && parses_sig(sig@)),
{
    let key = secp256k1::PublicKey::from_slice(pk).map_err(|_| SigError::InvalidPublicKey)?;
    let dig: [u8; 32] = digest.as_slice().try_into().map_err(|_| SigError::InvalidMessage)?;
    let s = secp256k1::ecdsa::Signature::from_compact(sig).map_err(|_| SigError::InvalidSignature)?;
    Ok(secp256k1::ecdsa::verify(&s, secp256k1::Message::from_digest(dig), &key).is_ok())
}

/// Verifies `sig` (compact form) over the SHA-256 digest of `data` under
/// `public_key`. Needs no private material: a pure function of its
/// arguments. Bytes that do not parse as a key or signature are an error.
pub fn verify(data: &str, sig: &Vec<u8>, public_key: &Vec<u8>) -> (r: Result<bool, SigError>)
    ensures
        r matches Ok(b) ==> b == ecdsa_verifies(public_key@, sha256_of(data@), sig@),
        r is Err ==> !ecdsa_verifies(public_key@, sha256_of(data@), sig@),
        (r is Err) == !(parses_pk(public_key@) && parses_sig(sig@)),
{
    let digest = sha256_str(data);
    verify_digest(public_key, &digest, sig)
}

/// Secret key material. The bytes are reachable only inside this module.
pub struct SecretBytes {
    bytes: Vec<u8>,
}

/// A keypair and a balance. The secret key never leaves the wallet; the
/// public key is shared freely as an identifier.
pub struct Wallet {
    pub public_key: Vec<u8>,
    pub secret_key: SecretBytes,
    pub balance: i64,
}

impl Wallet {
    /// The stored keys belong together: the secret key is usable for
    /// signing and the public key is the compressed serialization of the
    /// key derived from it, which parses back.
    pub closed spec fn wf(&self) -> bool {
        &&& self.public_key@ == pubkey_of(self.secret_key.bytes@)
        &&& self.public_key@.len() == 33
        &&& self.secret_key.bytes@.len() == 32
        &&& valid_sk(self.secret_key.bytes@)
        &&& parses_pk(self.public_key@)
    }

    /// The wallet's secret key bytes, for specification purposes only.
    pub closed spec fn spec_secret(&self) -> Seq<u8> {
        self.secret_key.bytes@
    }

    /// Creates a wallet with a fresh random keypair and the given balance.
    pub fn new(start_balance: i64) -> (r: Wallet)
        ensures
            r.balance == start_balance,
            r.public_key@.len() == 33,
            r.wf(),
    {
        let (secret_key, public_key) = generate_keypair_bytes();
        Wallet { public_key, secret_key: SecretBytes { bytes: secret_key }, balance: start_balance }
    }

    /// Signs the SHA-256 digest of `data` with the wallet's secret key,
    /// returning the compact 64-byte signature. Signing never fails for a
    /// wallet whose keys belong together.
    pub fn sign(&self, data: &str) -> (r: Result<Vec<u8>, SigError>)
        ensures
            self.wf() ==> r is Ok,
            r matches Ok(s) ==> s@ == ecdsa_sig(self.spec_secret(), sha256_of(data@))
                && s@.len() == 64 && parses_sig(s@)
                && (self.wf() ==> ecdsa_verifies(self.public_key@, sha256_of(data@), s@)),
    {
        let digest = sha256_str(data);
        sign_digest(&self.secret_key.bytes, &digest)
    }

    /// Verifies `sig` over the SHA-256 digest of `data` under this wallet's
    /// public key; the wallet's secret material plays no part.
    pub fn verify(&self, data: &str, sig: &Vec<u8>) -> (r: Result<bool, SigError>)
        ensures
            r matches Ok(b) ==> b == ecdsa_verifies(self.public_key@, sha256_of(data@), sig@),
            r is Err ==> !ecdsa_verifies(self.public_key@, sha256_of(data@), sig@),
            (r is Err) == !(parses_pk(self.public_key@) && parses_sig(sig@)),
    {
        verify(data, sig, &self.public_key)
    }

    /// Authors a transfer of `amount` to `to`, or `None` when the balance
    /// does not cover the amount or the recipient is the wallet itself. For
    /// a wallet whose keys belong together, those are the only refusals.
    pub fn create_transaction(&self, amount: u64, to: &Vec<u8>) -> (r: Option<Transaction>)
        ensures
            self.balance < amount ==> r is None,
            self.wf() && self.balance >= amount && to@ != self.public_key@ ==> r is Some,
            r matches Some(tx) ==> self.balance >= amount && to@ != self.public_key@
                && crate::transaction::fresh_transaction(tx, *self, to@, amount),
    {
        if self.balance < 0 {
            return None;
        }
        if (self.balance as u64) < amount {
            return None;
        }
        match Transaction::new(self, to, amount) {
            Ok(tx) => Some(tx),
            Err(_) => None,
        }
    }
}

} // verus!
