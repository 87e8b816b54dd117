//! Signed, balance-conserving transfer records: an output map of
//! post-transfer balances keyed by public key, attested by a signature over
//! its serialization.

use crate::encoding::{bytes_eq, clone_bytes, dec_int_chars, hex_chars, hex_of_bytes, i64_to_string};
use crate::hashing::sha256_of;
use crate::utils::time_now;
use crate::wallet::{ecdsa_sig, ecdsa_verifies, Wallet};
use vstd::prelude::*;
use vstd::string::StringExecFns;

verus! {

/// The first value stored under key `k`, scanning left to right.
pub open spec fn lookup(s: Seq<(Seq<u8>, i64)>, k: Seq<u8>) -> Option<i64>
    decreases s.len(),
{
    if s.len() == 0 {
        None
    } else if s[0].0 == k {
        Some(s[0].1)
    } else {
        lookup(s.drop_first(), k)
    }
}

/// A looked-up value, defaulting to 0 when the key is absent.
pub open spec fn or_zero(v: Option<i64>) -> int {
    match v {
        Some(x) => x as int,
        None => 0,
    }
}

/// The sum of all stored values.
pub open spec fn sum_values(s: Seq<(Seq<u8>, i64)>) -> int
    decreases s.len(),
{
    if s.len() == 0 {
        0
    } else {
        s[0].1 + sum_values(s.drop_first())
    }
}

/// No key occurs twice.
pub open spec fn keys_unique(s: Seq<(Seq<u8>, i64)>) -> bool {
    forall|i: int, j: int| 0 <= i < j < s.len() ==> s[i].0 != s[j].0
}

/// The serialization of one entry: the key in hex, `':'`, the value in
/// decimal, `';'`.
pub open spec fn entry_chars(k: Seq<u8>, v: i64) -> Seq<char> {
    hex_chars(k) + seq![':'] + dec_int_chars(v as int) + seq![';']
}

/// The serialization of an output map: its entries in storage order.
pub open spec fn serialize_entries(s: Seq<(Seq<u8>, i64)>) -> Seq<char>
    decreases s.len(),
{
    if s.len() == 0 {
        Seq::empty()
    } else {
        entry_chars(s[0].0, s[0].1) + serialize_entries(s.drop_first())
    }
}

proof fn lemma_lookup_first(s: Seq<(Seq<u8>, i64)>, k: Seq<u8>, i: int)
    requires
        0 <= i < s.len(),
        s[i].0 == k,
        forall|j: int| 0 <= j < i ==> s[j].0 != k,
    ensures
        lookup(s, k) == Some(s[i].1),
    decreases i,
{
    if i > 0 {
        lemma_lookup_first(s.drop_first(), k, i - 1);
    }
}

proof fn lemma_lookup_absent(s: Seq<(Seq<u8>, i64)>, k: Seq<u8>)
    requires
        forall|j: int| 0 <= j < s.len() ==> s[j].0 != k,
    ensures
        lookup(s, k) is None,
    decreases s.len(),
{
    if s.len() > 0 {
        lemma_lookup_absent(s.drop_first(), k);
    }
}

proof fn lemma_lookup_none_absent(s: Seq<(Seq<u8>, i64)>, k: Seq<u8>)
    requires
        lookup(s, k) is None,
    ensures
        forall|j: int| 0 <= j < s.len() ==> s[j].0 != k,
    decreases s.len(),
{
    if s.len() > 0 {
        lemma_lookup_none_absent(s.drop_first(), k);
        assert forall|j: int| 0 <= j < s.len() implies s[j].0 != k by {
            if j > 0 {
                assert(s.drop_first()[j - 1] == s[j]);
            }
        }
    }
}

proof fn lemma_lookup_update_other(s: Seq<(Seq<u8>, i64)>, i: int, v: i64, k: Seq<u8>)
    requires
        0 <= i < s.len(),
        k != s[i].0,
    ensures
        lookup(s.update(i, (s[i].0, v)), k) == lookup(s, k),
    decreases i,
{
    let t = s.update(i, (s[i].0, v));
    assert(t.len() == s.len());
    if i == 0 {
        assert(t[0] == (s[0].0, v));
        assert(t.drop_first() =~= s.drop_first());
    } else {
        assert(t[0] == s[0]);
        if s[0].0 != k {
            assert(t.drop_first() =~= s.drop_first().update(i - 1, (s.drop_first()[i - 1].0, v)));
            lemma_lookup_update_other(s.drop_first(), i - 1, v, k);
        }
    }
}

proof fn lemma_lookup_update_same(s: Seq<(Seq<u8>, i64)>, i: int, v: i64)
    requires
        0 <= i < s.len(),
        forall|j: int| 0 <= j < i ==> s[j].0 != s[i].0,
    ensures
        lookup(s.update(i, (s[i].0, v)), s[i].0) == Some(v),
{
    let t = s.update(i, (s[i].0, v));
    assert(t[i].0 == s[i].0 && t[i].1 == v);
    assert(forall|j: int| 0 <= j < i ==> t[j] == s[j]);
    lemma_lookup_first(t, s[i].0, i);
}

proof fn lemma_sum_update(s: Seq<(Seq<u8>, i64)>, i: int, v: i64)
    requires
        0 <= i < s.len(),
    ensures
        sum_values(s.update(i, (s[i].0, v))) == sum_values(s) - s[i].1 + v,
    decreases i,
{
    let t = s.update(i, (s[i].0, v));
    if i == 0 {
        assert(t[0] == (s[0].0, v));
        assert(t.drop_first() =~= s.drop_first());
    } else {
        assert(t[0] == s[0]);
        assert(t.drop_first() =~= s.drop_first().update(i - 1, (s.drop_first()[i - 1].0, v)));
        lemma_sum_update(s.drop_first(), i - 1, v);
    }
}

proof fn lemma_sum_push(s: Seq<(Seq<u8>, i64)>, p: (Seq<u8>, i64))
    ensures
        sum_values(s.push(p)) == sum_values(s) + p.1,
    decreases s.len(),
{
    let t = s.push(p);
    if s.len() == 0 {
        assert(t.len() == 1 && t[0] == p);
        assert(t.drop_first() =~= Seq::<(Seq<u8>, i64)>::empty());
        assert(sum_values(t.drop_first()) == 0);
        assert(sum_values(s) == 0);
        assert(sum_values(t) == p.1 + sum_values(t.drop_first()));
    } else {
        assert(t[0] == s[0]);
        assert(t.drop_first() =~= s.drop_first().push(p));
        lemma_sum_push(s.drop_first(), p);
        assert(sum_values(t) == t[0].1 + sum_values(t.drop_first()));
        assert(sum_values(s) == s[0].1 + sum_values(s.drop_first()));
    }
}

proof fn lemma_lookup_push(s: Seq<(Seq<u8>, i64)>, p: (Seq<u8>, i64), k: Seq<u8>)
    ensures
        lookup(s.push(p), k) == (if lookup(s, k) is Some {
            lookup(s, k)
        } else if p.0 == k {
            Some(p.1)
        } else {
            None
        }),
    decreases s.len(),
{
    let t = s.push(p);
    if s.len() == 0 {
        assert(t.len() == 1 && t[0] == p);
        assert(t.drop_first() =~= Seq::<(Seq<u8>, i64)>::empty());
        assert(lookup(t.drop_first(), k) is None);
        assert(lookup(s, k) is None);
        assert(lookup(t, k) == (if t[0].0 == k {
            Some(t[0].1)
        } else {
            lookup(t.drop_first(), k)
        }));
    } else {
        assert(t[0] == s[0]);
        assert(t.drop_first() =~= s.drop_first().push(p));
        lemma_lookup_push(s.drop_first(), p, k);
        assert(lookup(t, k) == (if t[0].0 == k {
            Some(t[0].1)
        } else {
            lookup(t.drop_first(), k)
        }));
        assert(lookup(s, k) == (if s[0].0 == k {
            Some(s[0].1)
        } else {
            lookup(s.drop_first(), k)
        }));
    }
}

proof fn lemma_sum_take_step(s: Seq<(Seq<u8>, i64)>, i: int)
    requires
        0 <= i < s.len(),
    ensures
        sum_values(s.take(i + 1)) == sum_values(s.take(i)) + s[i].1,
    decreases i,
{
    if i == 0 {
        assert(s.take(1).len() == 1 && s.take(1)[0] == s[0]);
        assert(s.take(1).drop_first() =~= Seq::<(Seq<u8>, i64)>::empty());
        assert(s.take(0).len() == 0);
        assert(sum_values(s.take(0)) == 0);
        assert(sum_values(s.take(1).drop_first()) == 0);
        assert(sum_values(s.take(1)) == s.take(1)[0].1 + sum_values(s.take(1).drop_first()));
    } else {
        lemma_sum_take_step(s.drop_first(), i - 1);
        assert(s.take(i + 1).drop_first() =~= s.drop_first().take(i));
        assert(s.take(i).drop_first() =~= s.drop_first().take(i - 1));
        assert(s.take(i + 1)[0] == s[0] && s.take(i)[0] == s[0]);
        assert(sum_values(s.take(i + 1)) == s[0].1 + sum_values(s.take(i + 1).drop_first()));
        assert(sum_values(s.take(i)) == s[0].1 + sum_values(s.take(i).drop_first()));
    }
}

proof fn lemma_serialize_take_step(s: Seq<(Seq<u8>, i64)>, i: int)
    requires
        0 <= i < s.len(),
    ensures
        serialize_entries(s.take(i + 1)) == serialize_entries(s.take(i)) + entry_chars(
            s[i].0,
            s[i].1,
        ),
    decreases i,
{
    if i == 0 {
        assert(s.take(1).len() == 1 && s.take(1)[0] == s[0]);
        assert(s.take(1).drop_first() =~= Seq::<(Seq<u8>, i64)>::empty());
        assert(s.take(0).len() == 0);
        assert(serialize_entries(s.take(0)) == Seq::<char>::empty());
        assert(serialize_entries(s.take(1).drop_first()) == Seq::<char>::empty());
        assert(serialize_entries(s.take(1)) =~= serialize_entries(s.take(0)) + entry_chars(
            s[0].0,
            s[0].1,
        ));
    } else {
        lemma_serialize_take_step(s.drop_first(), i - 1);
        assert(s.take(i + 1).drop_first() =~= s.drop_first().take(i));
        assert(s.take(i).drop_first() =~= s.drop_first().take(i - 1));
        assert(s.take(i + 1)[0] == s[0] && s.take(i)[0] == s[0]);
        assert(serialize_entries(s.take(i + 1)) =~= serialize_entries(s.take(i)) + entry_chars(
            s[i].0,
            s[i].1,
        ));
    }
}

/// The sum of `n` values each within `i64` bounds stays within `n` times
/// those bounds.
proof fn lemma_sum_bounds(s: Seq<(Seq<u8>, i64)>)
    ensures
        -(s.len() as int) * 0x8000_0000_0000_0000 <= sum_values(s),
        sum_values(s) <= (s.len() as int) * 0x7fff_ffff_ffff_ffff,
    decreases s.len(),
{
    if s.len() > 0 {
        lemma_sum_bounds(s.drop_first());
        assert((s.len() as int) * 0x8000_0000_0000_0000 == (s.len() as int - 1)
            * 0x8000_0000_0000_0000 + 0x8000_0000_0000_0000) by (nonlinear_arith);
        assert((s.len() as int) * 0x7fff_ffff_ffff_ffff == (s.len() as int - 1)
            * 0x7fff_ffff_ffff_ffff + 0x7fff_ffff_ffff_ffff) by (nonlinear_arith);
    }
}

/// The post-transfer balances a transaction attests to, keyed by public key.
pub struct OutputMap {
    entries: Vec<(Vec<u8>, i64)>,
}

impl View for OutputMap {
    type V = Seq<(Seq<u8>, i64)>;

    closed spec fn view(&self) -> Seq<(Seq<u8>, i64)> {
        Seq::new(self.entries@.len(), |i: int| (self.entries@[i].0@, self.entries@[i].1))
    }
}

impl Clone for OutputMap {
    fn clone(&self) -> (r: OutputMap)
        ensures
            r@ == self@,
    {
        let mut entries: Vec<(Vec<u8>, i64)> = Vec::new();
        let mut i: usize = 0;
        while i < self.entries.len()
            invariant
                i <= self.entries@.len(),
                self@.len() == self.entries@.len(),
                entries@.len() == i,
                forall|j: int| 0 <= j < i ==> (entries@[j].0@, entries@[j].1) == self@[j],
            decreases self.entries@.len() - i,
        {
            let key = clone_bytes(&self.entries[i].0);
            let value = self.entries[i].1;
            entries.push((key, value));
            i = i + 1;
        }
        let r = OutputMap { entries };
        proof {
            assert(r@ =~= self@);
        }
        r
    }
}

impl OutputMap {
    /// No key occurs twice.
    pub open spec fn wf(&self) -> bool {
        keys_unique(self@)
    }

    /// An empty map.
    pub fn new() -> (r: OutputMap)
        ensures
            r@ == Seq::<(Seq<u8>, i64)>::empty(),
            r.wf(),
    {
        let r = OutputMap { entries: Vec::new() };
        proof {
            assert(r@ =~= Seq::<(Seq<u8>, i64)>::empty());
        }
        r
    }

    /// The number of entries.
    pub fn len(&self) -> (r: usize)
        ensures
            r == self@.len(),
    {
        self.entries.len()
    }

    /// The index of the first entry under `key`, if any.
    fn index_of(&self, key: &Vec<u8>) -> (r: Option<usize>)
        ensures
            r matches Some(i) ==> i < self@.len() && self@[i as int].0 == key@ && (forall|j: int|
                0 <= j < i ==> self@[j].0 != key@),
            r is None ==> forall|j: int| 0 <= j < self@.len() ==> self@[j].0 != key@,
    {
        let mut i: usize = 0;
        while i < self.entries.len()
            invariant
                i <= self.entries@.len(),
                self@.len() == self.entries@.len(),
                forall|j: int| 0 <= j < i ==> self@[j].0 != key@,
            decreases self.entries@.len() - i,
        {
            if bytes_eq(&self.entries[i].0, key) {
                return Some(i);
            }
            i = i + 1;
        }
        None
    }

    /// The value stored under `key`, if any.
    pub fn get(&self, key: &Vec<u8>) -> (r: Option<i64>)
        ensures
            r == lookup(self@, key@),
    {
        match self.index_of(key) {
            Some(i) => {
                proof {
                    lemma_lookup_first(self@, key@, i as int);
                }
                Some(self.entries[i].1)
            },
            None => {
                proof {
                    lemma_lookup_absent(self@, key@);
                }
                None
            },
        }
    }

    /// All stored values, in storage order.
    pub fn values(&self) -> (r: Vec<i64>)
        ensures
            r@.len() == self@.len(),
            forall|i: int| 0 <= i < r@.len() ==> r@[i] == self@[i].1,
    {
        let mut out: Vec<i64> = Vec::new();
        let mut i: usize = 0;
        while i < self.entries.len()
            invariant
                i <= self.entries@.len(),
                self@.len() == self.entries@.len(),
                out@.len() == i,
                forall|j: int| 0 <= j < i ==> out@[j] == self@[j].1,
            decreases self.entries@.len() - i,
        {
            out.push(self.entries[i].1);
            i = i + 1;
        }
        out
    }

    /// The sum of all stored values. It cannot overflow: the map can hold
    /// fewer than 2^64 entries, each within `i64` bounds.
    pub fn total(&self) -> (r: i128)
        ensures
            r as int == sum_values(self@),
    {
        let mut acc: i128 = 0;
        let mut i: usize = 0;
        while i < self.entries.len()
            invariant
                i <= self.entries@.len(),
                self@.len() == self.entries@.len(),
                acc as int == sum_values(self@.take(i as int)),
            decreases self.entries@.len() - i,
        {
            proof {
                lemma_sum_take_step(self@, i as int);
                lemma_sum_bounds(self@.take(i as int));
                assert(self@.take(i as int).len() == i as int);
            }
            acc = acc + self.entries[i].1 as i128;
            i = i + 1;
        }
        proof {
            assert(self@.take(self@.len() as int) =~= self@);
        }
        acc
    }

    /// Appends an entry under a key that is not yet present.
    fn push_entry(&mut self, key: Vec<u8>, value: i64)
        requires
            lookup(old(self)@, key@) is None,
        ensures
            final(self)@ == old(self)@.push((key@, value)),
            old(self).wf() ==> final(self).wf(),
            lookup(final(self)@, key@) == Some(value),
            forall|k: Seq<u8>| k != key@ ==> lookup(final(self)@, k) == lookup(old(self)@, k),
            sum_values(final(self)@) == sum_values(old(self)@) + value,
    {
        proof {
            lemma_lookup_none_absent(old(self)@, key@);
        }
        let ghost prior = self@;
        self.entries.push((key, value));
        proof {
            assert(self@ =~= prior.push((key@, value)));
            lemma_sum_push(prior, (key@, value));
            lemma_lookup_push(prior, (key@, value), key@);
            lemma_lookup_absent(prior, key@);
            assert forall|k: Seq<u8>| k != key@ implies lookup(self@, k) == lookup(prior, k) by {
                lemma_lookup_push(prior, (key@, value), k);
            }
            if keys_unique(prior) {
                assert forall|i: int, j: int|
                    0 <= i < j < self@.len() implies self@[i].0 != self@[j].0 by {
                    if j == self@.len() - 1 {
                        assert(prior[i].0 != key@);
                    }
                }
            }
        }
    }

    /// Overwrites the value under `key`, leaving the keys as they are.
    /// Returns false, changing nothing, when the key is absent.
    pub fn set_value(&mut self, key: &Vec<u8>, value: i64) -> (r: bool)
        ensures
            r == (lookup(old(self)@, key@) is Some),
            !r ==> final(self)@ == old(self)@,
            r ==> final(self)@.len() == old(self)@.len(),
            r ==> lookup(final(self)@, key@) == Some(value),
            r ==> forall|k: Seq<u8>|
                k != key@ ==> lookup(final(self)@, k) == lookup(old(self)@, k),
            r ==> sum_values(final(self)@) == sum_values(old(self)@) - or_zero(
                lookup(old(self)@, key@),
            ) + value,
            old(self).wf() ==> final(self).wf(),
    {
        match self.index_of(key) {
            None => {
                proof {
                    lemma_lookup_absent(self@, key@);
                }
                false
            },
            Some(i) => {
                let ghost prior = self@;
                proof {
                    lemma_lookup_first(prior, key@, i as int);
                }
                let new_key = clone_bytes(key);
                let mut rebuilt: Vec<(Vec<u8>, i64)> = Vec::new();
                let mut j: usize = 0;
                while j < self.entries.len()
                    invariant
                        j <= self.entries@.len(),
                        self@ == prior,
                        self@.len() == self.entries@.len(),
                        i < self@.len(),
                        new_key@ == key@,
                        prior[i as int].0 == key@,
                        rebuilt@.len() == j,
                        forall|k: int|
                            0 <= k < j ==> (rebuilt@[k].0@, rebuilt@[k].1) == (if k == i as int {
                                (key@, value)
                            } else {
                                prior[k]
                            }),
                    decreases self.entries@.len() - j,
                {
                    if j == i {
                        rebuilt.push((clone_bytes(&new_key), value));
                    } else {
                        let k = clone_bytes(&self.entries[j].0);
                        let v = self.entries[j].1;
                        rebuilt.push((k, v));
                    }
                    j = j + 1;
                }
                self.entries = rebuilt;
                proof {
                    assert(self@ =~= prior.update(i as int, (prior[i as int].0, value)));
                    lemma_lookup_update_same(prior, i as int, value);
                    lemma_sum_update(prior, i as int, value);
                    assert forall|k: Seq<u8>|
                        k != key@ implies lookup(self@, k) == lookup(prior, k) by {
                        lemma_lookup_update_other(prior, i as int, value, k);
                    }
                    if keys_unique(prior) {
                        assert forall|a: int, b: int|
                            0 <= a < b < self@.len() implies self@[a].0 != self@[b].0 by {
                            assert(self@[a].0 == prior[a].0 && self@[b].0 == prior[b].0);
                        }
                    }
                }
                true
            },
        }
    }
}

/// Serializes an output map: each entry as the key in hex, `':'`, the value
/// in decimal, `';'`, in storage order.
pub fn serialize_outputs(map: &OutputMap) -> (r: String)
    ensures
        r@ == serialize_entries(map@),
{
    let mut out = String::new();
    let values = map.values();
    let mut i: usize = 0;
    while i < map.len()
        invariant
            i <= map@.len(),
            out@ == serialize_entries(map@.take(i as int)),
        decreases map@.len() - i,
    {
        let entry = map.entry_strings(i);
        out.append(entry.as_str());
        proof {
            lemma_serialize_take_step(map@, i as int);
        }
        i = i + 1;
    }
    proof {
        assert(map@.take(map@.len() as int) =~= map@);
    }
    out
}

/// Why a transfer was refused.
#[derive(Debug, Clone, Copy, PartialEq, Eq, Structural)]
pub enum TxError {
    /// The amount exceeds the funds it would be drawn from.
    InsufficientFunds,
    /// Sender and recipient are the same key; the output map could not
    /// record such a transfer faithfully, so it is refused outright.
    SelfTransfer,
    /// The sender's key has no entry in the output map.
    UnknownSender,
    /// The recipient's entry would exceed the representable balance range.
    AmountOverflow,
    /// The cryptographic signing step failed.
    SignatureFailed,
}

/// Relies on `uuid::Uuid::new_v4` and its `Display` form: a fresh random
/// version-4 UUID rendered in hyphenated form, which is 36 characters.
#[verifier::external_body]
fn new_tx_id() -> (r: String)
    ensures
        r@.len() == 36,
{
    uuid::Uuid::new_v4().to_string()
}

/// A signed transfer record: a unique id, the attested post-transfer
/// balances, and the signer's input tuple of `(timestamp,
/// claimed_initial_balance, signer_public_key, signature)`.
pub struct Transaction {
    pub id: String,
    pub output_map: OutputMap,
    pub input: (i64, i64, Vec<u8>, Vec<u8>),
}

impl Transaction {
    /// A transaction is valid when its output values sum to the claimed
    /// initial balance and its signature verifies over the serialized output
    /// map under the signer's public key.
    pub open spec fn valid_model(self) -> bool {
        &&& sum_values(self.output_map@) == self.input.1
        &&& ecdsa_verifies(
            self.input.2@,
            sha256_of(serialize_entries(self.output_map@)),
            self.input.3@,
        )
    }
}

/// What `Transaction::new` guarantees of a transaction it emits for a
/// transfer of `amount` from `from` to `to`.
pub open spec fn fresh_transaction(
    tx: Transaction,
    from: Wallet,
    to: Seq<u8>,
    amount: u64,
) -> bool {
    &&& tx.output_map@ == seq![
        (to, amount as i64),
        (from.public_key@, (from.balance - amount) as i64),
    ]
    &&& tx.output_map.wf()
    &&& sum_values(tx.output_map@) == from.balance
    &&& tx.input.1 == from.balance
    &&& tx.input.2@ == from.public_key@
    &&& tx.input.3@ == ecdsa_sig(from.spec_secret(), sha256_of(serialize_entries(tx.output_map@)))
    &&& tx.id@.len() == 36
    &&& (from.wf() ==> tx.valid_model())
}

/// A freshly authored transaction is valid, and its output map records the
/// transfer: the recipient holds the amount and the sender holds the rest of
/// the attested balance.
pub proof fn lemma_fresh_transaction_valid(tx: Transaction, from: Wallet, to: Seq<u8>, amount: u64)
    requires
        fresh_transaction(tx, from, to, amount),
        from.wf(),
    ensures
        tx.valid_model(),
        lookup(tx.output_map@, to) == Some(amount as i64),
        lookup(tx.output_map@, from.public_key@) == Some((from.balance - amount) as i64),
{
    let s = tx.output_map@;
    assert(s[0].0 != s[1].0);
    assert(s.drop_first() =~= seq![(from.public_key@, (from.balance - amount) as i64)]);
    assert(s.drop_first().drop_first() =~= Seq::<(Seq<u8>, i64)>::empty());
    assert(lookup(s, to) == Some(s[0].1));
    assert(lookup(s.drop_first(), from.public_key@) == Some(s[1].1));
}

impl Transaction {
    /// Authors a transfer of `amount` from `from` to the key `to`.
    ///
    /// The output map holds exactly two entries: the amount under `to` and
    /// the remainder of the wallet's balance under the sender's key; the
    /// whole map is serialized and signed with the wallet's key. A transfer
    /// beyond the wallet's balance and a transfer of a wallet to itself are
    /// refused, each with its own error; for a wallet whose keys belong
    /// together, those are the only refusals.
    pub fn new(from: &Wallet, to: &Vec<u8>, amount: u64) -> (r: Result<Transaction, TxError>)
        ensures
            (from.balance < amount) <==> r == Err::<Transaction, TxError>(
                TxError::InsufficientFunds,
            ),
            (from.balance >= amount && to@ == from.public_key@) <==> r == Err::<
                Transaction,
                TxError,
            >(TxError::SelfTransfer),
            r is Ok || r == Err::<Transaction, TxError>(TxError::InsufficientFunds) || r == Err::<
                Transaction,
                TxError,
            >(TxError::SelfTransfer) || r == Err::<Transaction, TxError>(TxError::SignatureFailed),
            from.wf() && from.balance >= amount && to@ != from.public_key@ ==> r is Ok,
            r matches Ok(tx) ==> fresh_transaction(tx, *from, to@, amount),
    {
        if from.balance < 0 {
            return Err(TxError::InsufficientFunds);
        }
        if (from.balance as u64) < amount {
            return Err(TxError::InsufficientFunds);
        }
        if bytes_eq(to, &from.public_key) {
            return Err(TxError::SelfTransfer);
        }
        let mut output_map = OutputMap::new();
        output_map.push_entry(clone_bytes(to), amount as i64);
        output_map.push_entry(clone_bytes(&from.public_key), from.balance - (amount as i64));
        proof {
            assert(output_map@ =~= seq![
                (to@, amount as i64),
                (from.public_key@, (from.balance - amount) as i64),
            ]);
        }
        let serialized = serialize_outputs(&output_map);
        let signature = match from.sign(serialized.as_str()) {
            Ok(s) => s,
            Err(_) => {
                return Err(TxError::SignatureFailed);
            },
        };
        let id = new_tx_id();
        let timestamp = time_now();
        let tx = Transaction {
            id,
            output_map,
            input: (timestamp, from.balance, clone_bytes(&from.public_key), signature),
        };
        Ok(tx)
    }

    /// Recomputes what validity is defined over: the output values must sum
    /// to the claimed initial balance, and the signature must verify over
    /// the serialized output map under the stored public key. Bytes that do
    /// not parse as a key or signature make the transaction invalid.
    pub fn is_valid_transaction(tx: &Transaction) -> (r: bool)
        ensures
            r == tx.valid_model(),
    {
        let total = tx.output_map.total();
        if total != tx.input.1 as i128 {
            return false;
        }
        let serialized = serialize_outputs(&tx.output_map);
        match crate::wallet::verify(serialized.as_str(), &tx.input.3, &tx.input.2) {
            Ok(b) => b,
            Err(_) => false,
        }
    }

    /// Adds `amount` to the recipient's entry (creating it at 0 when
    /// absent), draws it from the sender's entry, and re-signs the whole
    /// current output map with a fresh timestamp, invalidating the previous
    /// signature in favor of the new one. A transfer the sender's entry
    /// cannot cover is refused, as is one whose recipient entry would
    /// overflow; a transfer of the sender to itself leaves the map as it is
    /// and only re-signs. On any error the transaction is left untouched,
    /// and for a wallet whose keys belong together the signing step itself
    /// never fails.
    pub fn update(&mut self, from: &Wallet, to: &Vec<u8>, amount: u64) -> (r: Result<(), TxError>)
        ensures
            r is Err ==> *final(self) == *old(self),
            (lookup(old(self).output_map@, from.public_key@) is None) <==> r == Err::<(), TxError>(
                TxError::UnknownSender,
            ),
            r == Err::<(), TxError>(TxError::AmountOverflow) <==> (lookup(
                old(self).output_map@,
                from.public_key@,
            ) is Some && to@ != from.public_key@ && or_zero(lookup(old(self).output_map@, to@))
                + amount > i64::MAX),
            r == Err::<(), TxError>(TxError::InsufficientFunds) <==> (lookup(
                old(self).output_map@,
                from.public_key@,
            ) is Some && to@ != from.public_key@ && or_zero(lookup(old(self).output_map@, to@))
                + amount <= i64::MAX && or_zero(
                lookup(old(self).output_map@, from.public_key@),
            ) < amount),
            r is Ok || r == Err::<(), TxError>(TxError::UnknownSender) || r == Err::<(), TxError>(
                TxError::AmountOverflow,
            ) || r == Err::<(), TxError>(TxError::InsufficientFunds) || r == Err::<(), TxError>(
                TxError::SignatureFailed,
            ),
            from.wf() ==> r != Err::<(), TxError>(TxError::SignatureFailed),
            r is Ok ==> sum_values(final(self).output_map@) == sum_values(old(self).output_map@),
            r is Ok ==> final(self).input.1 == from.balance,
            r is Ok ==> final(self).input.2@ == from.public_key@,
            r is Ok ==> final(self).input.3@ == ecdsa_sig(
                from.spec_secret(),
                sha256_of(serialize_entries(final(self).output_map@)),
            ),
            r is Ok ==> final(self).id == old(self).id,
            r is Ok && old(self).output_map.wf() ==> final(self).output_map.wf(),
            r is Ok && from.wf() && sum_values(old(self).output_map@) == from.balance
                ==> final(self).valid_model(),
            r is Ok && to@ == from.public_key@
                ==> final(self).output_map@ == old(self).output_map@,
            r is Ok && to@ != from.public_key@ ==> lookup(final(self).output_map@, to@) == Some(
                (or_zero(lookup(old(self).output_map@, to@)) + amount) as i64,
            ),
            r is Ok && to@ != from.public_key@ ==> lookup(
                final(self).output_map@,
                from.public_key@,
            ) == Some((or_zero(lookup(old(self).output_map@, from.public_key@)) - amount) as i64),
            r is Ok && to@ != from.public_key@ ==> forall|k: Seq<u8>|
                k != to@ && k != from.public_key@ ==> lookup(final(self).output_map@, k) == lookup(
                    old(self).output_map@,
                    k,
                ),
    {
        let sender_v: i64 = match self.output_map.get(&from.public_key) {
            Some(v) => v,
            None => {
                return Err(TxError::UnknownSender);
            },
        };
        let same = bytes_eq(to, &from.public_key);
        let mut new_map = self.output_map.clone();
        if !same {
            let to_cur: i64 = match new_map.get(to) {
                Some(v) => v,
                None => 0,
            };
            if (to_cur as i128) + (amount as i128) > i64::MAX as i128 {
                return Err(TxError::AmountOverflow);
            }
            if sender_v < 0 {
                return Err(TxError::InsufficientFunds);
            }
            if (sender_v as u64) < amount {
                return Err(TxError::InsufficientFunds);
            }
            if new_map.get(to).is_none() {
                new_map.push_entry(clone_bytes(to), 0);
            }
            let set_to = new_map.set_value(to, to_cur + (amount as i64));
            proof {
                assert(set_to);
            }
            let set_from = new_map.set_value(&from.public_key, sender_v - (amount as i64));
            proof {
                assert(set_from);
            }
        }
        let serialized = serialize_outputs(&new_map);
        let signature = match from.sign(serialized.as_str()) {
            Ok(s) => s,
            Err(_) => {
                return Err(TxError::SignatureFailed);
            },
        };
        let timestamp = time_now();
        self.output_map = new_map;
        self.input = (timestamp, from.balance, clone_bytes(&from.public_key), signature);
        Ok(())
    }
}

impl OutputMap {
    /// The serialization of the entry at index `i`.
    fn entry_strings(&self, i: usize) -> (r: String)
        requires
            i < self@.len(),
        ensures
            r@ == entry_chars(self@[i as int].0, self@[i as int].1),
    {
        let mut out = hex_of_bytes(&self.entries[i].0);
        proof {
            reveal_strlit(":");
            reveal_strlit(";");
        }
        out.append(":");
        out.append(i64_to_string(self.entries[i].1).as_str());
        out.append(";");
        proof {
            assert(out@ =~= entry_chars(self@[i as int].0, self@[i as int].1));
        }
        out
    }
}

} // verus!
