//! The hash engine: lowercase hexadecimal SHA-256 digests and their extension.
use sha2::Digest;
use vstd::prelude::*;

verus! {

/// The raw 32-byte SHA-256 digest of a byte sequence.
pub uninterp spec fn sha256_of(data: Seq<u8>) -> Seq<u8>;

/// Relies on `sha2::Sha256::digest`: the 32-byte SHA-256 digest of `data`,
/// which depends on the bytes alone.
#[verifier::external_body]
fn sha256(data: &[u8]) -> (r: Vec<u8>)
    ensures
        r@ == sha256_of(data@),
        r@.len() == 32,
{
    sha2::Sha256::digest(data).to_vec()
}

/// The ASCII lowercase hexadecimal digit for a value below 16.
pub open spec fn hex_digit(n: u8) -> u8 {
    if n < 10 {
        (48 + n) as u8
    } else {
        (87 + n) as u8
    }
}

/// Two lowercase hexadecimal digits per byte, high nibble first.
pub open spec fn hex_of(b: Seq<u8>) -> Seq<u8>
    decreases b.len(),
{
    if b.len() == 0 {
        Seq::empty()
    } else {
        hex_of(b.drop_last()) + seq![hex_digit(b.last() / 16), hex_digit(b.last() % 16)]
    }
}

/// The digest of a byte sequence: SHA-256 written in lowercase hexadecimal.
pub open spec fn digest_of(data: Seq<u8>) -> Seq<u8> {
    hex_of(sha256_of(data))
}

/// Extending a digest by a suffix is hashing their concatenation.
pub open spec fn extend_spec(d: Seq<u8>, suffix: Seq<u8>) -> Seq<u8> {
    digest_of(d + suffix)
}

fn hex_char(n: u8) -> (r: u8)
    requires
        n < 16,
    ensures
        r == hex_digit(n),
{
    if n < 10 {
        48 + n
    } else {
        87 + n
    }
}

/// Writes each byte as two lowercase hexadecimal digits.
pub fn hex_encode(b: &[u8]) -> (r: Vec<u8>)
    ensures
        r@ == hex_of(b@),
{
    let mut r: Vec<u8> = Vec::new();
    let mut i: usize = 0;
    while i < b.len()
        invariant
            i <= b@.len(),
            r@ == hex_of(b@.take(i as int)),
        decreases b@.len() - i,
    {
        let x = b[i];
        r.push(hex_char(x / 16));
        r.push(hex_char(x % 16));
        proof {
            let t = b@.take(i as int + 1);
            assert(t.drop_last() =~= b@.take(i as int));
            assert(t.last() == x);
        }
        i = i + 1;
    }
    assert(b@.take(b@.len() as int) =~= b@);
    r
}

/// The digest of `data`: its SHA-256 in lowercase hexadecimal.
pub fn hash_bytes(data: &[u8]) -> (r: Vec<u8>)
    ensures
        r@ == digest_of(data@),
{
    let raw = sha256(data);
    hex_encode(raw.as_slice())
}

/// Extends the digest `d` by `suffix`: the digest of their concatenation.
pub fn extend(d: &[u8], suffix: &[u8]) -> (r: Vec<u8>)
    ensures
        r@ == extend_spec(d@, suffix@),
{
    let mut joined: Vec<u8> = Vec::new();
    let mut i: usize = 0;
    while i < d.len()
        invariant
            i <= d@.len(),
            joined@ == d@.take(i as int),
        decreases d@.len() - i,
    {
        joined.push(d[i]);
        assert(d@.take(i as int + 1) =~= d@.take(i as int).push(d@[i as int]));
        i = i + 1;
    }
    let mut j: usize = 0;
    while j < suffix.len()
        invariant
            j <= suffix@.len(),
            joined@ == d@ + suffix@.take(j as int),
        decreases suffix@.len() - j,
    {
        joined.push(suffix[j]);
        assert(suffix@.take(j as int + 1) =~= suffix@.take(j as int).push(suffix@[j as int]));
        j = j + 1;
    }
    assert(d@.take(d@.len() as int) =~= d@);
    assert(suffix@.take(suffix@.len() as int) =~= suffix@);
    hash_bytes(joined.as_slice())
}

} // verus!
