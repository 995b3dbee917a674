//! Block digests: SHA-256 over a byte encoding, rendered as lowercase hex,
//! and the difficulty predicate on that rendering.
use sha2::Digest;
use vstd::prelude::*;

verus! {

/// The SHA-256 digest of a byte sequence, as computed by the `sha2` crate.
pub uninterp spec fn sha256_of(data: Seq<u8>) -> Seq<u8>;

/// Relies on `sha2::Sha256::digest`: the 32-byte SHA-256 digest of `data`,
/// which depends on the bytes alone.
#[verifier::external_body]
fn sha256(data: &Vec<u8>) -> (r: Vec<u8>)
    ensures
        r@ == sha256_of(data@),
        r@.len() == 32,
{
    sha2::Sha256::digest(data.as_slice()).to_vec()
}

/// The ASCII character of a hexadecimal digit, lowercase.
pub open spec fn hex_char(v: u8) -> u8
    recommends
        v < 16,
{
    if v < 10 {
        (v + 48) as u8
    } else {
        (v + 87) as u8
    }
}

/// Two lowercase hex characters per byte, high nibble first.
pub open spec fn hex_of(b: Seq<u8>) -> Seq<u8>
    decreases b.len(),
{
    if b.len() == 0 {
        Seq::empty()
    } else {
        hex_of(b.drop_last()) + seq![hex_char(b.last() / 16), hex_char(b.last() % 16)]
    }
}

pub proof fn lemma_hex_of_len(b: Seq<u8>)
    ensures
        hex_of(b).len() == 2 * b.len(),
    decreases b.len(),
{
    if b.len() > 0 {
        lemma_hex_of_len(b.drop_last());
    }
}

/// The ASCII character `'0'`.
pub const ZERO_CHAR: u8 = 48;

/// A hash meets difficulty `d` when its first `d` characters are all `'0'`.
pub open spec fn meets_difficulty(h: Seq<u8>, d: nat) -> bool {
    d <= h.len() && forall|i: int| 0 <= i < d ==> h[i] == ZERO_CHAR
}

/// The hash of a byte encoding: its SHA-256 digest in lowercase hex.
pub open spec fn hash_of(data: Seq<u8>) -> Seq<u8> {
    hex_of(sha256_of(data))
}

fn hex_digit(v: u8) -> (r: u8)
    requires
        v < 16,
    ensures
        r == hex_char(v),
{
    if v < 10 {
        v + 48
    } else {
        v + 87
    }
}

/// Renders bytes as lowercase hex.
pub fn to_hex(b: &Vec<u8>) -> (r: Vec<u8>)
    ensures
        r@ == hex_of(b@),
{
    let mut out: Vec<u8> = Vec::new();
    let mut i: usize = 0;
    while i < b.len()
        invariant
            i <= b.len(),
            out@ == hex_of(b@.take(i as int)),
        decreases b.len() - i,
    {
        let v = b[i];
        out.push(hex_digit(v / 16));
        out.push(hex_digit(v % 16));
        proof {
            assert(b@.take(i as int + 1).drop_last() =~= b@.take(i as int));
        }
        i = i + 1;
    }
    proof {
        assert(b@.take(b.len() as int) =~= b@);
    }
    out
}

/// Hashes a byte encoding: SHA-256, then lowercase hex.
pub fn hash_bytes(data: &Vec<u8>) -> (r: Vec<u8>)
    ensures
        r@ == hash_of(data@),
        r@.len() == 64,
{
    let d = sha256(data);
    proof {
        lemma_hex_of_len(d@);
    }
    to_hex(&d)
}

/// Whether the first `d` characters of `h` are all `'0'`.
pub fn has_leading_zeros(h: &Vec<u8>, d: usize) -> (r: bool)
    ensures
        r == meets_difficulty(h@, d as nat),
{
    if d > h.len() {
        return false;
    }
    let mut i: usize = 0;
    while i < d
        invariant
            d <= h.len(),
            i <= d,
            forall|j: int| 0 <= j < i ==> h@[j] == ZERO_CHAR,
        decreases d - i,
    {
        if h[i] != ZERO_CHAR {
            return false;
        }
        i = i + 1;
    }
    true
}

/// Whether two byte strings are equal.
pub fn bytes_eq(a: &Vec<u8>, b: &Vec<u8>) -> (r: bool)
    ensures
        r == (a@ == b@),
{
    if a.len() != b.len() {
        return false;
    }
    let mut i: usize = 0;
    while i < a.len()
        invariant
            a.len() == b.len(),
            i <= a.len(),
            forall|j: int| 0 <= j < i ==> a@[j] == b@[j],
        decreases a.len() - i,
    {
        if a[i] != b[i] {
            assert(a@[i as int] != b@[i as int]);
            return false;
        }
        i = i + 1;
    }
    assert(a@ =~= b@);
    true
}

} // verus!
