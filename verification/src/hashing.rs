//! Content addressing for the ledger: a SHA-256 digest expanded into an
//! explicit string of `'0'`/`'1'` characters, which is the form difficulty
//! comparisons are defined over.

use sha2::Digest;
use vstd::prelude::*;
use vstd::string::StringExecFns;

verus! {

/// The SHA-256 digest (32 bytes) of the UTF-8 encoding of a character
/// sequence. The encoding is injective and fixed, so the digest is a function
/// of the characters alone.
pub uninterp spec fn sha256_of(s: Seq<char>) -> Seq<u8>;

/// Relies on `sha2::Sha256::digest`: SHA-256 is a pure function of its input
/// and its output is 32 bytes.
#[verifier::external_body]
pub(crate) fn sha256_str(s: &str) -> (r: Vec<u8>)
    ensures
        r@ == sha256_of(s@),
        r@.len() == 32,
{
    sha2::Sha256::digest(s.as_bytes()).to_vec()
}

/// The character for one bit of a byte, most significant bit first
/// (`i` in `0..8`).
pub open spec fn bit_char(b: u8, i: int) -> char {
    if (b >> ((7 - i) as u8)) & 1u8 == 1u8 {
        '1'
    } else {
        '0'
    }
}

/// The eight binary-digit characters of one byte, most significant first.
pub open spec fn byte_bits(b: u8) -> Seq<char> {
    Seq::new(8, |i: int| bit_char(b, i))
}

/// A byte string expanded into binary-digit characters, eight per byte, in
/// byte order.
pub open spec fn bytes_bits(s: Seq<u8>) -> Seq<char>
    decreases s.len(),
{
    if s.len() == 0 {
        Seq::empty()
    } else {
        byte_bits(s[0]) + bytes_bits(s.drop_first())
    }
}

/// The concatenation of a sequence of character sequences, in order, with no
/// separator.
pub open spec fn concat_chars(parts: Seq<Seq<char>>) -> Seq<char>
    decreases parts.len(),
{
    if parts.len() == 0 {
        Seq::empty()
    } else {
        parts[0] + concat_chars(parts.drop_first())
    }
}

/// The full content hash: parts concatenated in order, digested with SHA-256,
/// and expanded into a 256-character string of `'0'`/`'1'`.
pub open spec fn hash_chars(parts: Seq<Seq<char>>) -> Seq<char> {
    bytes_bits(sha256_of(concat_chars(parts)))
}

/// `concat_chars` over one more part appends that part.
proof fn lemma_concat_chars_take_step(parts: Seq<Seq<char>>, i: int)
    requires
        0 <= i < parts.len(),
    ensures
        concat_chars(parts.take(i + 1)) == concat_chars(parts.take(i)) + parts[i],
    decreases i,
{
    if i == 0 {
        assert(parts.take(1).len() == 1);
        assert(parts.take(1)[0] == parts[0]);
        assert(parts.take(0).len() == 0);
        assert(concat_chars(parts.take(0)) == Seq::<char>::empty());
        assert(parts.take(1).drop_first() =~= Seq::<Seq<char>>::empty());
        assert(concat_chars(parts.take(1).drop_first()) == Seq::<char>::empty());
        assert(concat_chars(parts.take(1)) =~= concat_chars(parts.take(0)) + parts[0]);
    } else {
        lemma_concat_chars_take_step(parts.drop_first(), i - 1);
        assert(parts.take(i + 1).drop_first() =~= parts.drop_first().take(i));
        assert(parts.take(i).drop_first() =~= parts.drop_first().take(i - 1));
        assert(concat_chars(parts.take(i + 1)) =~= concat_chars(parts.take(i)) + parts[i]);
    }
}

/// `bytes_bits` over one more byte appends that byte's eight digits.
proof fn lemma_bytes_bits_take_step(s: Seq<u8>, i: int)
    requires
        0 <= i < s.len(),
    ensures
        bytes_bits(s.take(i + 1)) == bytes_bits(s.take(i)) + byte_bits(s[i]),
    decreases i,
{
    if i == 0 {
        assert(s.take(1).len() == 1);
        assert(s.take(1)[0] == s[0]);
        assert(s.take(0).len() == 0);
        assert(bytes_bits(s.take(0)) == Seq::<char>::empty());
        assert(s.take(1).drop_first() =~= Seq::<u8>::empty());
        assert(bytes_bits(s.take(1).drop_first()) == Seq::<char>::empty());
        assert(bytes_bits(s.take(1)) =~= bytes_bits(s.take(0)) + byte_bits(s[0]));
    } else {
        lemma_bytes_bits_take_step(s.drop_first(), i - 1);
        assert(s.take(i + 1).drop_first() =~= s.drop_first().take(i));
        assert(s.take(i).drop_first() =~= s.drop_first().take(i - 1));
        assert(bytes_bits(s.take(i + 1)) =~= bytes_bits(s.take(i)) + byte_bits(s[i]));
    }
}

/// The binary expansion of a byte string has eight characters per byte.
pub proof fn lemma_bytes_bits_len(s: Seq<u8>)
    ensures
        bytes_bits(s).len() == 8 * s.len(),
    decreases s.len(),
{
    if s.len() > 0 {
        lemma_bytes_bits_len(s.drop_first());
    }
}

/// Appends the eight binary-digit characters of `b` to `out`.
fn push_byte_bits(out: &mut String, b: u8)
    ensures
        final(out)@ == old(out)@ + byte_bits(b),
{
    let ghost base = out@;
    let mut j: usize = 0;
    while j < 8
        invariant
            j <= 8,
            out@ == base + byte_bits(b).take(j as int),
        decreases 8 - j,
    {
        let sh: u8 = (7 - j) as u8;
        if (b >> sh) & 1u8 == 1u8 {
            proof {
                reveal_strlit("1");
            }
            out.append("1");
        } else {
            proof {
                reveal_strlit("0");
            }
            out.append("0");
        }
        proof {
            assert(out@ =~= base + byte_bits(b).take(j as int + 1));
        }
        j = j + 1;
    }
    proof {
        assert(byte_bits(b).take(8) =~= byte_bits(b));
    }
}

/// Computes the content hash of `parts`: the parts are concatenated in order
/// with no separator, digested with SHA-256, and the digest is expanded into
/// a 256-character string of `'0'`/`'1'`, four characters per hex nibble in
/// digest order.
pub fn gen_hash(parts: Vec<String>) -> (r: String)
    ensures
        r@ == hash_chars(parts.deep_view()),
        r@.len() == 256,
{
    let mut joined = String::new();
    let mut i: usize = 0;
    while i < parts.len()
        invariant
            i <= parts.len(),
            joined@ == concat_chars(parts.deep_view().take(i as int)),
            parts.deep_view().len() == parts@.len(),
            forall|k: int| 0 <= k < parts@.len() ==> parts.deep_view()[k] == parts@[k]@,
        decreases parts.len() - i,
    {
        joined.append(parts[i].as_str());
        proof {
            lemma_concat_chars_take_step(parts.deep_view(), i as int);
        }
        i = i + 1;
    }
    proof {
        assert(parts.deep_view().take(parts.deep_view().len() as int) =~= parts.deep_view());
    }
    let digest = sha256_str(joined.as_str());
    let mut out = String::new();
    let mut i: usize = 0;
    while i < digest.len()
        invariant
            i <= digest.len(),
            digest@ == sha256_of(concat_chars(parts.deep_view())),
            digest@.len() == 32,
            out@ == bytes_bits(digest@.take(i as int)),
        decreases digest.len() - i,
    {
        push_byte_bits(&mut out, digest[i]);
        proof {
            lemma_bytes_bits_take_step(digest@, i as int);
        }
        i = i + 1;
    }
    proof {
        assert(digest@.take(digest@.len() as int) =~= digest@);
        lemma_bytes_bits_len(digest@);
    }
    out
}

/// The binary digits of a value with no leading zeros, most significant
/// first; zero renders as a single `'0'`.
pub open spec fn min_bits(n: nat) -> Seq<char>
    decreases n,
{
    if n < 2 {
        seq![if n == 1 {
                '1'
            } else {
                '0'
            }]
    } else {
        min_bits(n / 2) + seq![
            if n % 2 == 1 {
                '1'
            } else {
                '0'
            },
        ]
    }
}

/// The minimal binary renderings of a byte string, concatenated in byte
/// order.
pub open spec fn min_bits_all(s: Seq<u8>) -> Seq<char>
    decreases s.len(),
{
    if s.len() == 0 {
        Seq::empty()
    } else {
        min_bits(s[0] as nat) + min_bits_all(s.drop_first())
    }
}

/// Reversing a concatenation reverses and swaps the halves.
proof fn lemma_reverse_concat<A>(a: Seq<A>, b: Seq<A>)
    ensures
        (a + b).reverse() == b.reverse() + a.reverse(),
{
    assert((a + b).reverse() =~= b.reverse() + a.reverse());
}

/// Appends the reversal of `min_bits(v)`, least significant bit first.
fn push_rev_min_bits(out: &mut String, v: u8)
    ensures
        final(out)@ == old(out)@ + min_bits(v as nat).reverse(),
    decreases v,
{
    let bit = v % 2;
    let ghost c: char = if bit == 1 {
        '1'
    } else {
        '0'
    };
    if bit == 1 {
        proof {
            reveal_strlit("1");
        }
        out.append("1");
    } else {
        proof {
            reveal_strlit("0");
        }
        out.append("0");
    }
    if v >= 2 {
        proof {
            assert(out@ =~= old(out)@ + seq![c]);
        }
        push_rev_min_bits(out, v / 2);
        proof {
            lemma_reverse_concat(min_bits((v / 2) as nat), seq![c]);
            assert(seq![c].reverse() =~= seq![c]);
            assert(min_bits(v as nat) == min_bits((v / 2) as nat) + seq![c]);
            assert(out@ =~= old(out)@ + min_bits(v as nat).reverse());
        }
    } else {
        proof {
            assert(min_bits(v as nat) =~= seq![c]);
            assert(min_bits(v as nat).reverse() =~= seq![c]);
            assert(out@ =~= old(out)@ + min_bits(v as nat).reverse());
        }
    }
}

/// Digests `s` with SHA-256, renders each digest byte in minimal binary (no
/// leading zeros), concatenates the renderings in byte order, and returns
/// the whole string reversed.
pub fn to_binary(s: &str) -> (r: String)
    ensures
        r@ == min_bits_all(sha256_of(s@)).reverse(),
{
    let digest = sha256_str(s);
    let mut out = String::new();
    let mut i: usize = digest.len();
    while i > 0
        invariant
            i <= digest.len(),
            digest@ == sha256_of(s@),
            out@ == min_bits_all(digest@.skip(i as int)).reverse(),
        decreases i,
    {
        i = i - 1;
        push_rev_min_bits(&mut out, digest[i]);
        proof {
            lemma_min_bits_all_skip_step(digest@, i as int);
            lemma_reverse_concat(
                min_bits(digest@[i as int] as nat),
                min_bits_all(digest@.skip(i as int + 1)),
            );
            assert(out@ =~= min_bits_all(digest@.skip(i as int)).reverse());
        }
    }
    proof {
        assert(digest@.skip(0) =~= digest@);
    }
    out
}

/// Peeling one byte off the front of a suffix prepends its minimal binary
/// rendering.
proof fn lemma_min_bits_all_skip_step(s: Seq<u8>, i: int)
    requires
        0 <= i < s.len(),
    ensures
        min_bits_all(s.skip(i)) == min_bits(s[i] as nat) + min_bits_all(s.skip(i + 1)),
{
    assert(s.skip(i).len() > 0);
    assert(s.skip(i)[0] == s[i]);
    assert(s.skip(i).drop_first() =~= s.skip(i + 1));
}

} // verus!
