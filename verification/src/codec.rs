//! The wire codec for scalar frames: ASCII-decimal integers and lowercase
//! hexadecimal byte strings, plus byte-slice comparison.

use vstd::prelude::*;
use vstd::arithmetic::div_mod::lemma_fundamental_div_mod;

use crate::errors::{ErrorKind, XactError};

verus! {

/// `b` is the ASCII code of a decimal digit.
pub open spec fn is_ascii_digit(b: u8) -> bool {
    0x30 <= b && b <= 0x39
}

/// `s` is a non-empty run of ASCII decimal digits.
pub open spec fn is_decimal(s: Seq<u8>) -> bool {
    s.len() > 0 && forall|i: int| 0 <= i < s.len() ==> is_ascii_digit(#[trigger] s[i])
}

/// The number denoted by a run of ASCII decimal digits, most significant first.
pub open spec fn decimal_value(s: Seq<u8>) -> nat
    decreases s.len(),
{
    if s.len() == 0 {
        0
    } else {
        (decimal_value(s.drop_last()) * 10 + (s.last() - 0x30)) as nat
    }
}

/// The canonical ASCII decimal spelling of `n`: no sign, no leading zeros.
pub open spec fn decimal_repr(n: nat) -> Seq<u8>
    decreases n,
{
    if n < 10 {
        seq![(0x30 + n) as u8]
    } else {
        decimal_repr(n / 10).push((0x30 + n % 10) as u8)
    }
}

/// Appending one digit multiplies the denoted value by ten and adds the digit.
pub proof fn lemma_decimal_value_snoc(s: Seq<u8>, b: u8)
    ensures
        decimal_value(s.push(b)) == (decimal_value(s) * 10 + (b - 0x30)) as nat,
{
    assert(s.push(b).drop_last() =~= s);
    assert(s.push(b).last() == b);
}

/// Among all-digit sequences, the value of a prefix never exceeds the value
/// of the whole.
pub proof fn lemma_decimal_value_prefix_le(s: Seq<u8>, i: int)
    requires
        0 <= i <= s.len(),
        forall|j: int| 0 <= j < s.len() ==> is_ascii_digit(#[trigger] s[j]),
    ensures
        decimal_value(s.take(i)) <= decimal_value(s),
    decreases s.len() - i,
{
    if i == s.len() {
        assert(s.take(i) =~= s);
    } else {
        assert(s.take(i + 1).drop_last() =~= s.take(i));
        assert(decimal_value(s.take(i + 1)) == decimal_value(s.take(i)) * 10 + (s[i] - 0x30));
        lemma_decimal_value_prefix_le(s, i + 1);
    }
}

/// The canonical spelling is made of digits, denotes the number it spells,
/// and never starts with a zero digit unless the number is zero.
pub proof fn lemma_decimal_repr_value(n: nat)
    ensures
        is_decimal(decimal_repr(n)),
        decimal_value(decimal_repr(n)) == n,
        n > 0 ==> decimal_repr(n)[0] != 0x30,
    decreases n,
{
    if n < 10 {
        let s = decimal_repr(n);
        assert(s.drop_last() =~= Seq::<u8>::empty());
        assert(decimal_value(s.drop_last()) == 0);
        assert((0x30 + n) as u8 == 0x30 + n);
    } else {
        lemma_decimal_repr_value(n / 10);
        assert(n % 10 < 10) by {
            lemma_fundamental_div_mod(n as int, 10);
        }
        assert((0x30 + n % 10) as u8 == 0x30 + n % 10);
        lemma_decimal_value_snoc(decimal_repr(n / 10), (0x30 + n % 10) as u8);
        assert(decimal_value(decimal_repr(n)) == (n / 10) * 10 + n % 10);
        assert((n / 10) * 10 + n % 10 == n) by {
            lemma_fundamental_div_mod(n as int, 10);
        }
        assert(decimal_repr(n)[0] == decimal_repr(n / 10)[0]);
    }
}

/// Parses a frame as an unsigned ASCII-decimal integer.
///
/// Succeeds exactly on non-empty all-digit frames whose value fits in
/// `usize`; anything else is an `InvalidResponse` error.
pub fn bytes_to_int(bytes: &[u8]) -> (r: Result<usize, XactError>)
    ensures
        r is Ok <==> is_decimal(bytes@) && decimal_value(bytes@) <= usize::MAX,
        r matches Ok(n) ==> n == decimal_value(bytes@),
        r matches Err(e) ==> e.kind() == ErrorKind::InvalidResponse,
{
    if bytes.len() == 0 {
        return Err(XactError::new(ErrorKind::InvalidResponse, "empty integer frame"));
    }
    let mut acc: usize = 0;
    let mut i: usize = 0;
    while i < bytes.len()
        invariant
            0 <= i <= bytes@.len(),
            bytes@.len() > 0,
            forall|j: int| 0 <= j < i ==> is_ascii_digit(#[trigger] bytes@[j]),
            acc == decimal_value(bytes@.take(i as int)),
        decreases bytes@.len() - i,
    {
        let b = bytes[i];
        if b < 0x30 || b > 0x39 {
            return Err(XactError::new(ErrorKind::InvalidResponse, "non-digit in integer frame"));
        }
        let d = (b - 0x30) as usize;
        proof {
            lemma_decimal_value_snoc(bytes@.take(i as int), b);
            assert(bytes@.take(i as int).push(b) =~= bytes@.take(i + 1));
        }
        if acc > (usize::MAX - d) / 10 {
            proof {
                lemma_fundamental_div_mod((usize::MAX - d) as int, 10);
                assert(acc * 10 + d > usize::MAX) by (nonlinear_arith)
                    requires
                        acc > (usize::MAX - d) / 10,
                        (usize::MAX - d) == ((usize::MAX - d) / 10) * 10 + (usize::MAX - d) % 10,
                        0 <= (usize::MAX - d) % 10 < 10,
                        d <= usize::MAX,
                ;
                if is_decimal(bytes@) {
                    lemma_decimal_value_prefix_le(bytes@, i + 1);
                }
            }
            return Err(XactError::new(ErrorKind::InvalidResponse, "integer frame too large"));
        }
        proof {
            lemma_fundamental_div_mod((usize::MAX - d) as int, 10);
            assert(acc * 10 + d <= usize::MAX) by (nonlinear_arith)
                requires
                    acc <= (usize::MAX - d) / 10,
                    (usize::MAX - d) == ((usize::MAX - d) / 10) * 10 + (usize::MAX - d) % 10,
                    0 <= (usize::MAX - d) % 10 < 10,
            ;
        }
        acc = acc * 10 + d;
        i = i + 1;
    }
    proof {
        assert(bytes@.take(i as int) =~= bytes@);
    }
    Ok(acc)
}

/// Appends the canonical decimal spelling of `n` to `v`.
fn push_decimal(v: &mut Vec<u8>, n: usize)
    ensures
        final(v)@ == old(v)@ + decimal_repr(n as nat),
    decreases n,
{
    if n < 10 {
        v.push(0x30 + n as u8);
        assert(final(v)@ =~= old(v)@ + decimal_repr(n as nat));
    } else {
        push_decimal(v, n / 10);
        v.push(0x30 + (n % 10) as u8);
        assert(final(v)@ =~= old(v)@ + decimal_repr(n as nat));
    }
}

/// Renders `num` as its canonical ASCII decimal spelling.
pub fn int_to_bytes(num: usize) -> (r: Vec<u8>)
    ensures
        r@ == decimal_repr(num as nat),
{
    let mut v: Vec<u8> = Vec::new();
    push_decimal(&mut v, num);
    proof {
        assert(v@ =~= decimal_repr(num as nat));
    }
    v
}

/// The lowercase ASCII hex digit for a nibble.
pub open spec fn hex_digit(n: u8) -> u8 {
    if n < 10 {
        (0x30 + n) as u8
    } else {
        (0x61 + (n - 10)) as u8
    }
}

/// The lowercase hex spelling of a byte string: two digits per byte,
/// high nibble first.
pub open spec fn hex_of(s: Seq<u8>) -> Seq<u8>
    decreases s.len(),
{
    if s.len() == 0 {
        Seq::empty()
    } else {
        hex_of(s.drop_last()) + seq![hex_digit(s.last() / 16), hex_digit(s.last() % 16)]
    }
}

/// The hex spelling is twice as long as the byte string it spells.
pub proof fn lemma_hex_of_len(s: Seq<u8>)
    ensures
        hex_of(s).len() == 2 * s.len(),
    decreases s.len(),
{
    if s.len() > 0 {
        lemma_hex_of_len(s.drop_last());
    }
}

/// Renders a byte string in lowercase hex, two digits per byte.
pub fn to_hex(bytes: &[u8]) -> (r: Vec<u8>)
    ensures
        r@ == hex_of(bytes@),
{
    let mut v: Vec<u8> = Vec::new();
    let mut i: usize = 0;
    while i < bytes.len()
        invariant
            0 <= i <= bytes@.len(),
            v@ == hex_of(bytes@.take(i as int)),
        decreases bytes@.len() - i,
    {
        let b = bytes[i];
        let hi = b / 16;
        let lo = b % 16;
        let hid = if hi < 10 { 0x30 + hi } else { 0x61 + (hi - 10) };
        let lod = if lo < 10 { 0x30 + lo } else { 0x61 + (lo - 10) };
        v.push(hid);
        v.push(lod);
        proof {
            assert(bytes@.take(i + 1).drop_last() =~= bytes@.take(i as int));
            assert(v@ =~= hex_of(bytes@.take(i as int)) + seq![hex_digit(b / 16), hex_digit(b % 16)]);
        }
        i = i + 1;
    }
    proof {
        assert(bytes@.take(i as int) =~= bytes@);
    }
    v
}

/// Compares two byte slices for equality of contents.
pub fn bytes_eq(a: &[u8], b: &[u8]) -> (r: bool)
    ensures
        r <==> a@ == b@,
{
    if a.len() != b.len() {
        return false;
    }
    let mut i: usize = 0;
    while i < a.len()
        invariant
            0 <= i <= a@.len(),
            a@.len() == b@.len(),
            forall|j: int| 0 <= j < i ==> a@[j] == b@[j],
        decreases a@.len() - i,
    {
        if a[i] != b[i] {
            return false;
        }
        i = i + 1;
    }
    proof {
        assert(a@ =~= b@);
    }
    true
}

} // verus!
