//! Digests, and how they are written.

use vstd::prelude::*;

use sha2::Digest;

verus! {

/// The digest of some bytes in the sense of `sha2::Sha256`.
pub uninterp spec fn sha256_of(data: Seq<u8>) -> Seq<u8>;

/// `sha2::Sha256::digest`.  The claims are that the digest depends on the
/// bytes alone, and that it has 32 bytes.
#[verifier::external_body]
fn sha256(data: &Vec<u8>) -> (r: Vec<u8>)
    ensures
        r@ == sha256_of(data@),
        r@.len() == 32,
{
    sha2::Sha256::digest(data).to_vec()
}

/// A digit of a number in base sixteen.
pub open spec fn hex_digit(n: int) -> char {
    if n < 10 {
        (48 + n) as char
    } else {
        (87 + n) as char
    }
}

fn digit_of(n: u8) -> (r: char)
    requires
        n < 16,
    ensures
        r == hex_digit(n as int),
{
    if n < 10 {
        (48 + n) as char
    } else {
        (87 + n) as char
    }
}

/// Whether a character is a digit in base sixteen, in lower case.
pub open spec fn is_hex(c: char) -> bool {
    '0' <= c && c <= '9' || 'a' <= c && c <= 'f'
}

/// The first `n` bytes, two digits for each.
pub open spec fn hex_text(bytes: Seq<u8>, n: int) -> Seq<char>
    decreases n,
{
    if n <= 0 {
        seq![]
    } else {
        hex_text(bytes, n - 1).push(hex_digit(bytes[n - 1] as int / 16)).push(
            hex_digit(bytes[n - 1] as int % 16),
        )
    }
}

/// The bytes in base sixteen.
pub fn to_hex(bytes: &Vec<u8>) -> (r: String)
    ensures
        r@ == hex_text(bytes@, bytes@.len() as int),
{
    let mut s = String::new();
    let n: usize = bytes.len();
    let mut i: usize = 0;
    assert(s@ =~= Seq::<char>::empty());
    while i < n
        invariant
            n == bytes@.len(),
            i <= n,
            s@ == hex_text(bytes@, i as int),
        decreases n - i,
    {
        let b: u8 = bytes[i];
        s.push(digit_of(b / 16));
        s.push(digit_of(b % 16));
        i = i + 1;
    }
    s
}

/// A text in base sixteen has two digits for each byte, and nothing else.
pub proof fn law_hex_has_two_digits(bytes: Seq<u8>, n: int)
    requires
        0 <= n <= bytes.len(),
    ensures
        hex_text(bytes, n).len() == 2 * n,
        forall|i: int| 0 <= i < 2 * n ==> is_hex(#[trigger] hex_text(bytes, n)[i]),
    decreases n,
{
    if n > 0 {
        law_hex_has_two_digits(bytes, n - 1);
    }
}

/// Different bytes have different texts in base sixteen.
pub proof fn law_hex_tells_bytes_apart(a: Seq<u8>, b: Seq<u8>, n: int)
    requires
        0 <= n <= a.len(),
        n <= b.len(),
        hex_text(a, n) == hex_text(b, n),
    ensures
        forall|i: int| 0 <= i < n ==> a[i] == b[i],
    decreases n,
{
    if n > 0 {
        law_hex_has_two_digits(a, n - 1);
        law_hex_has_two_digits(b, n - 1);
        let x = hex_text(a, n);
        let y = hex_text(b, n);
        let p = hex_text(a, n - 1);
        let q = hex_text(b, n - 1);
        assert(x[2 * n - 2] == hex_digit(a[n - 1] as int / 16));
        assert(y[2 * n - 2] == hex_digit(b[n - 1] as int / 16));
        assert(x[2 * n - 1] == hex_digit(a[n - 1] as int % 16));
        assert(y[2 * n - 1] == hex_digit(b[n - 1] as int % 16));
        assert(p =~= q) by {
            assert forall|i: int| 0 <= i < p.len() implies p[i] == q[i] by {
                assert(x[i] == p[i]);
                assert(y[i] == q[i]);
            }
        }
        law_hex_tells_bytes_apart(a, b, n - 1);
    }
}

/// The digest of some bytes, in base sixteen.
pub fn sha256_hex(data: &Vec<u8>) -> (r: String)
    ensures
        r@ == hex_text(sha256_of(data@), 32),
        r@.len() == 64,
        forall|i: int| 0 <= i < 64 ==> is_hex(#[trigger] r@[i]),
{
    let d = sha256(data);
    proof {
        law_hex_has_two_digits(d@, 32);
    }
    to_hex(&d)
}

} // verus!
