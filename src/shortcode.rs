use sha2::{Digest, Sha256};
use vstd::prelude::*;
use vstd::utf8::encode_utf8;

verus! {

/// The ASCII decimal digits of `n`, most significant first, without leading zeros.
pub open spec fn decimal(n: nat) -> Seq<u8>
    decreases n,
{
    if n < 10 {
        seq![(48 + n) as u8]
    } else {
        decimal(n / 10).push((48 + n % 10) as u8)
    }
}

/// The bytes that are hashed for a short link: `uploader:block:url`, UTF-8 encoded.
pub open spec fn hash_input(uploader: Seq<char>, block: u64, url: Seq<char>) -> Seq<u8> {
    encode_utf8(uploader) + seq![58u8] + decimal(block as nat) + seq![58u8] + encode_utf8(url)
}

/// The lowercase hexadecimal digit of a value below 16.
pub open spec fn hex_digit(v: nat) -> char {
    if v < 10 {
        ((48 + v) as u8) as char
    } else {
        ((87 + v) as u8) as char
    }
}

/// Two lowercase hexadecimal digits per byte, high nibble first.
pub open spec fn hex_lower(b: Seq<u8>) -> Seq<char>
    decreases b.len(),
{
    if b.len() == 0 {
        Seq::empty()
    } else {
        let last = b.last();
        hex_lower(b.drop_last()) + seq![hex_digit(last as nat / 16), hex_digit(last as nat % 16)]
    }
}

/// The SHA-256 digest of a byte sequence.
pub uninterp spec fn sha256_of(b: Seq<u8>) -> Seq<u8>;

/// The short code of a link: the first eight digest bytes of its hash input, in hex.
pub open spec fn short_code(uploader: Seq<char>, block: u64, url: Seq<char>) -> Seq<char> {
    hex_lower(sha256_of(hash_input(uploader, block, url)).take(8))
}

pub proof fn lemma_hex_lower_len(b: Seq<u8>)
    ensures
        hex_lower(b).len() == 2 * b.len(),
    decreases b.len(),
{
    if b.len() > 0 {
        lemma_hex_lower_len(b.drop_last());
    }
}

/// Relies on sha2's `Sha256` (`Digest::update` then `Digest::finalize`): the
/// 32-byte digest, which depends on the input bytes alone.
#[verifier::external_body]
fn sha256(data: &[u8]) -> (r: Vec<u8>)
    ensures
        r@ == sha256_of(data@),
        r@.len() == 32,
{
    let mut hasher = Sha256::new();
    hasher.update(data);
    hasher.finalize().to_vec()
}

/// Relies on `hex::encode`: each byte becomes two lowercase hex digits, high
/// nibble first.
#[verifier::external_body]
fn hex_encode(data: &[u8]) -> (r: String)
    ensures
        r@ == hex_lower(data@),
{
    hex::encode(data)
}

/// Appends the decimal digits of `n` to `out`.
fn push_decimal(out: &mut Vec<u8>, n: u64)
    ensures
        final(out)@ == old(out)@ + decimal(n as nat),
    decreases n,
{
    if n >= 10 {
        push_decimal(out, n / 10);
    }
    out.push(48u8 + (n % 10) as u8);
    assert(final(out)@ =~= old(out)@ + decimal(n as nat));
}

/// Appends every byte of `b` to `out`.
fn push_bytes(out: &mut Vec<u8>, b: &[u8])
    ensures
        final(out)@ == old(out)@ + b@,
{
    let mut i: usize = 0;
    while i < b.len()
        invariant
            i <= b@.len(),
            out@ == old(out)@ + b@.take(i as int),
        decreases b@.len() - i,
    {
        out.push(b[i]);
        i = i + 1;
        assert(out@ =~= old(out)@ + b@.take(i as int));
    }
    assert(b@.take(i as int) =~= b@);
}

/// The bytes `uploader:block:url` that a short code is derived from.
pub fn hash_input_bytes(uploader: &str, block: u64, url: &str) -> (r: Vec<u8>)
    ensures
        r@ == hash_input(uploader@, block, url@),
{
    let mut r: Vec<u8> = Vec::new();
    push_bytes(&mut r, uploader.as_bytes());
    r.push(58u8);
    push_decimal(&mut r, block);
    r.push(58u8);
    push_bytes(&mut r, url.as_bytes());
    assert(r@ =~= hash_input(uploader@, block, url@));
    r
}

/// The 16-character code of the hex rendering of the first eight bytes of `digest`.
pub fn code_of_digest(digest: &Vec<u8>) -> (r: String)
    requires
        digest@.len() >= 8,
    ensures
        r@ == hex_lower(digest@.take(8)),
        r@.len() == 16,
{
    let mut prefix: Vec<u8> = Vec::new();
    let mut i: usize = 0;
    while i < 8
        invariant
            i <= 8,
            digest@.len() >= 8,
            prefix@ == digest@.take(i as int),
        decreases 8 - i,
    {
        prefix.push(digest[i]);
        i = i + 1;
        assert(prefix@ =~= digest@.take(i as int));
    }
    proof {
        lemma_hex_lower_len(prefix@);
    }
    hex_encode(prefix.as_slice())
}

/// The short code of a link created by `uploader` at height `block` for `url`.
pub fn generate_hash(uploader: &str, block: u64, url: &str) -> (r: String)
    ensures
        r@ == short_code(uploader@, block, url@),
        r@.len() == 16,
{
    let input = hash_input_bytes(uploader, block, url);
    let digest = sha256(input.as_slice());
    code_of_digest(&digest)
}

} // verus!
