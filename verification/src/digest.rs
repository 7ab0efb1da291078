//! SHA-256 digests and their hexadecimal notation.
use sha2::Digest;
use vstd::prelude::*;

verus! {

/// The SHA-256 digest of bytes.
pub uninterp spec fn sha256_digest(data: Seq<u8>) -> Seq<u8>;

/// Calls `sha2::Sha256::digest`: the digest of the bytes, which is 32 bytes long.
#[verifier::external_body]
fn sha256(data: &[u8]) -> (digest: Vec<u8>)
    ensures
        digest@ == sha256_digest(data@),
        digest@.len() == 32,
{
    sha2::Sha256::digest(data).to_vec()
}

/// A hexadecimal digit in lower case.
pub open spec fn hex_digit(d: int) -> char {
    if d < 10 {
        (48 + d) as char
    } else {
        (87 + d) as char
    }
}

/// Bytes in hexadecimal notation, two digits each.
pub open spec fn hex_chars(bytes: Seq<u8>) -> Seq<char>
    decreases bytes.len(),
{
    if bytes.len() == 0 {
        Seq::empty()
    } else {
        hex_chars(bytes.drop_last()).push(hex_digit(bytes.last() as int / 16)).push(
            hex_digit(bytes.last() as int % 16),
        )
    }
}

fn hex_char(d: u8) -> (c: char)
    requires
        d < 16,
    ensures
        c == hex_digit(d as int),
{
    if d < 10 {
        (48 + d) as char
    } else {
        (87 + d) as char
    }
}

/// Bytes in hexadecimal notation: see [`hex_chars`].
pub fn hex_text(bytes: &[u8]) -> (s: String)
    ensures
        s@ == hex_chars(bytes@),
{
    let mut s = String::new();
    let mut i: usize = 0;
    while i < bytes.len()
        invariant
            i <= bytes@.len(),
            s@ == hex_chars(bytes@.take(i as int)),
        decreases bytes.len() - i,
    {
        proof {
            assert(bytes@.take(i as int + 1).drop_last() == bytes@.take(i as int));
            assert(bytes@.take(i as int + 1).last() == bytes@[i as int]);
        }
        s.push(hex_char(bytes[i] / 16));
        s.push(hex_char(bytes[i] % 16));
        i += 1;
    }
    assert(bytes@.take(bytes@.len() as int) == bytes@);
    s
}

/// The SHA-256 digest of bytes in hexadecimal notation.
pub fn sha256_hex(data: &[u8]) -> (s: String)
    ensures
        s@ == hex_chars(sha256_digest(data@)),
        s@.len() == 64,
{
    let digest = sha256(data);
    proof {
        lemma_hex_len(digest@);
    }
    hex_text(digest.as_slice())
}

/// Hexadecimal notation has two digits for every byte.
pub proof fn lemma_hex_len(bytes: Seq<u8>)
    ensures
        hex_chars(bytes).len() == 2 * bytes.len(),
    decreases bytes.len(),
{
    if bytes.len() > 0 {
        lemma_hex_len(bytes.drop_last());
    }
}

/// Two digits stand for each byte, the high one first, in lower case, so that different bytes are
/// written differently.
pub proof fn law_digits_tell_the_bytes(bytes: Seq<u8>, i: int)
    requires
        0 <= i < bytes.len(),
    ensures
        hex_chars(bytes).len() == 2 * bytes.len(),
        ({
            let value = |c: char|
                if '0' <= c <= '9' {
                    c as int - 48
                } else if 'a' <= c <= 'f' {
                    c as int - 87
                } else {
                    -1
                };
            let high = value(hex_chars(bytes)[2 * i]);
            let low = value(hex_chars(bytes)[2 * i + 1]);
            0 <= high < 16 && 0 <= low < 16 && bytes[i] == 16 * high + low
        }),
    decreases bytes.len(),
{
    lemma_hex_len(bytes);
    let less = bytes.drop_last();
    lemma_hex_len(less);
    if i < bytes.len() - 1 {
        law_digits_tell_the_bytes(less, i);
        assert(hex_chars(bytes)[2 * i] == hex_chars(less)[2 * i]);
        assert(hex_chars(bytes)[2 * i + 1] == hex_chars(less)[2 * i + 1]);
    }
}

} // verus!
