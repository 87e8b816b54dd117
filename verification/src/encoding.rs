//! Text encodings the ledger uses: decimal renderings of integers and
//! lower-case hexadecimal renderings of byte strings.

use vstd::prelude::*;
use vstd::string::StringExecFns;

verus! {

/// The decimal digit character for a value in `0..10`.
pub open spec fn dec_digit(d: int) -> char {
    if d == 0 {
        '0'
    } else if d == 1 {
        '1'
    } else if d == 2 {
        '2'
    } else if d == 3 {
        '3'
    } else if d == 4 {
        '4'
    } else if d == 5 {
        '5'
    } else if d == 6 {
        '6'
    } else if d == 7 {
        '7'
    } else if d == 8 {
        '8'
    } else {
        '9'
    }
}

/// The decimal rendering of a non-negative integer, most significant digit
/// first, with no leading zeros (`0` renders as `"0"`).
pub open spec fn dec_nat_chars(n: nat) -> Seq<char>
    decreases n,
{
    if n < 10 {
        seq![dec_digit(n as int)]
    } else {
        dec_nat_chars(n / 10) + seq![dec_digit((n % 10) as int)]
    }
}

/// The decimal rendering of a signed integer: a leading `'-'` for negative
/// values, then the digits of the magnitude.
pub open spec fn dec_int_chars(n: int) -> Seq<char> {
    if n < 0 {
        seq!['-'] + dec_nat_chars((-n) as nat)
    } else {
        dec_nat_chars(n as nat)
    }
}

/// The lower-case hex digit character for a value in `0..16`.
pub open spec fn hex_digit(d: int) -> char {
    if d < 10 {
        dec_digit(d)
    } else if d == 10 {
        'a'
    } else if d == 11 {
        'b'
    } else if d == 12 {
        'c'
    } else if d == 13 {
        'd'
    } else if d == 14 {
        'e'
    } else {
        'f'
    }
}

/// The lower-case hex rendering of a byte string, two digits per byte, high
/// nibble first.
pub open spec fn hex_chars(bytes: Seq<u8>) -> Seq<char>
    decreases bytes.len(),
{
    if bytes.len() == 0 {
        Seq::empty()
    } else {
        seq![hex_digit((bytes[0] / 16) as int), hex_digit((bytes[0] % 16) as int)] + hex_chars(bytes.drop_first())
    }
}

/// A one-character string for a decimal digit.
fn digit_string(d: u8) -> (r: String)
    requires
        d < 10,
    ensures
        r@ =~= seq![dec_digit(d as int)],
{
    if d == 0 {
        proof {
            reveal_strlit("0");
        }
        String::from_str("0")
    } else if d == 1 {
        proof {
            reveal_strlit("1");
        }
        String::from_str("1")
    } else if d == 2 {
        proof {
            reveal_strlit("2");
        }
        String::from_str("2")
    } else if d == 3 {
        proof {
            reveal_strlit("3");
        }
        String::from_str("3")
    } else if d == 4 {
        proof {
            reveal_strlit("4");
        }
        String::from_str("4")
    } else if d == 5 {
        proof {
            reveal_strlit("5");
        }
        String::from_str("5")
    } else if d == 6 {
        proof {
            reveal_strlit("6");
        }
        String::from_str("6")
    } else if d == 7 {
        proof {
            reveal_strlit("7");
        }
        String::from_str("7")
    } else if d == 8 {
        proof {
            reveal_strlit("8");
        }
        String::from_str("8")
    } else {
        proof {
            reveal_strlit("9");
        }
        String::from_str("9")
    }
}

/// A one-character string for a hex digit.
fn hex_digit_string(d: u8) -> (r: String)
    requires
        d < 16,
    ensures
        r@ =~= seq![hex_digit(d as int)],
{
    if d < 10 {
        digit_string(d)
    } else if d == 10 {
        proof {
            reveal_strlit("a");
        }
        String::from_str("a")
    } else if d == 11 {
        proof {
            reveal_strlit("b");
        }
        String::from_str("b")
    } else if d == 12 {
        proof {
            reveal_strlit("c");
        }
        String::from_str("c")
    } else if d == 13 {
        proof {
            reveal_strlit("d");
        }
        String::from_str("d")
    } else if d == 14 {
        proof {
            reveal_strlit("e");
        }
        String::from_str("e")
    } else {
        proof {
            reveal_strlit("f");
        }
        String::from_str("f")
    }
}

/// Appends the decimal rendering of `n` to `out`.
fn push_dec_u64(out: &mut String, n: u64)
    ensures
        final(out)@ == old(out)@ + dec_nat_chars(n as nat),
    decreases n,
{
    if n < 10 {
        out.append(digit_string(n as u8).as_str());
    } else {
        push_dec_u64(out, n / 10);
        out.append(digit_string((n % 10) as u8).as_str());
        proof {
            assert(out@ =~= old(out)@ + dec_nat_chars(n as nat));
        }
    }
}

/// Renders a `u64` in decimal.
pub fn u64_to_string(n: u64) -> (r: String)
    ensures
        r@ == dec_nat_chars(n as nat),
{
    let mut out = String::new();
    push_dec_u64(&mut out, n);
    proof {
        assert(out@ =~= dec_nat_chars(n as nat));
    }
    out
}

/// Renders a `usize` in decimal.
pub fn usize_to_string(n: usize) -> (r: String)
    ensures
        r@ == dec_nat_chars(n as nat),
{
    u64_to_string(n as u64)
}

/// Renders an `i64` in decimal, with a `'-'` sign for negative values.
pub fn i64_to_string(n: i64) -> (r: String)
    ensures
        r@ == dec_int_chars(n as int),
{
    if n >= 0 {
        u64_to_string(n as u64)
    } else {
        let mag: u64 = if n == i64::MIN {
            9223372036854775808u64
        } else {
            (-n) as u64
        };
        proof {
            reveal_strlit("-");
        }
        let mut out = String::from_str("-");
        push_dec_u64(&mut out, mag);
        proof {
            assert(out@ =~= dec_int_chars(n as int));
        }
        out
    }
}

/// Renders a byte string in lower-case hex, two digits per byte.
pub fn hex_of_bytes(bytes: &Vec<u8>) -> (r: String)
    ensures
        r@ == hex_chars(bytes@),
{
    let mut out = String::new();
    let mut i: usize = 0;
    while i < bytes.len()
        invariant
            i <= bytes.len(),
            out@ == hex_chars(bytes@.take(i as int)),
        decreases bytes.len() - i,
    {
        let b = bytes[i];
        out.append(hex_digit_string(b / 16).as_str());
        out.append(hex_digit_string(b % 16).as_str());
        proof {
            lemma_hex_chars_take_step(bytes@, i as int);
        }
        i = i + 1;
    }
    proof {
        assert(bytes@.take(bytes@.len() as int) =~= bytes@);
    }
    out
}

/// Whether two byte strings are equal.
pub fn bytes_eq(a: &Vec<u8>, b: &Vec<u8>) -> (r: bool)
    ensures
        r == (a@ == b@),
{
    if a.len() != b.len() {
        return false;
    }
    let mut i: usize = 0;
    while i < a.len()
        invariant
            i <= a.len() == b.len(),
            a@.len() == b@.len(),
            forall|k: int| 0 <= k < i ==> a@[k] == b@[k],
        decreases a.len() - i,
    {
        if a[i] != b[i] {
            return false;
        }
        i = i + 1;
    }
    proof {
        assert(a@ =~= b@);
    }
    true
}

/// Copies a byte string.
pub fn clone_bytes(v: &Vec<u8>) -> (r: Vec<u8>)
    ensures
        r@ == v@,
{
    let mut out: Vec<u8> = Vec::new();
    let mut i: usize = 0;
    while i < v.len()
        invariant
            i <= v.len(),
            out@ =~= v@.take(i as int),
        decreases v.len() - i,
    {
        out.push(v[i]);
        i = i + 1;
    }
    proof {
        assert(v@.take(v@.len() as int) =~= v@);
    }
    out
}

/// `hex_chars` over one more byte extends the rendering by that byte's two
/// digits.
proof fn lemma_hex_chars_take_step(s: Seq<u8>, i: int)
    requires
        0 <= i < s.len(),
    ensures
        hex_chars(s.take(i + 1)) == hex_chars(s.take(i)) + seq![
            hex_digit((s[i] / 16) as int),
            hex_digit((s[i] % 16) as int),
        ],
    decreases i,
{
    if i == 0 {
        assert(s.take(1).len() == 1);
        assert(s.take(1)[0] == s[0]);
        assert(s.take(0).len() == 0);
        assert(hex_chars(s.take(0)) == Seq::<char>::empty());
        assert(s.take(1).drop_first() =~= Seq::<u8>::empty());
        assert(hex_chars(s.take(1).drop_first()) == Seq::<char>::empty());
        assert(hex_chars(s.take(1)) =~= hex_chars(s.take(0)) + seq![
            hex_digit((s[0] / 16) as int),
            hex_digit((s[0] % 16) as int),
        ]);
    } else {
        lemma_hex_chars_take_step(s.drop_first(), i - 1);
        assert(s.take(i + 1).drop_first() =~= s.drop_first().take(i));
        assert(s.take(i).drop_first() =~= s.drop_first().take(i - 1));
        assert(hex_chars(s.take(i + 1)) =~= hex_chars(s.take(i)) + seq![
            hex_digit((s[i] / 16) as int),
            hex_digit((s[i] % 16) as int),
        ]);
    }
}

} // verus!
