//! Lock records and the hash that identifies a source text.

use vstd::prelude::*;

verus! {

/// What is kept about a source file once code generated for it compiled.
#[derive(Debug)]
pub struct LockData {
    pub source_hash: String,
    pub generated_code: String,
    pub verified_at: String,
    pub passed_tests: Vec<String>,
}

/// Computing source hashes (loading and saving lock records is file I/O,
/// done by the application).
pub struct LockManager;

/// The 32-byte BLAKE3 digest of a byte string.
pub uninterp spec fn blake3_digest(data: Seq<u8>) -> Seq<u8>;

/// Calls `blake3::hash` and returns the bytes of the digest: BLAKE3 of the
/// input, a function of the input bytes alone (named `blake3_digest`), 32
/// bytes long (`blake3::OUT_LEN`).
#[verifier::external_body]
fn blake3_hash(data: &[u8]) -> (r: Vec<u8>)
    ensures
        r@ == blake3_digest(data@),
        r@.len() == 32,
{
    blake3::hash(data).as_bytes().to_vec()
}

/// The lowercase hexadecimal digit for a value below 16.
pub open spec fn hex_digit(d: nat) -> char {
    if d < 10 {
        ((d + 48) as u8) as char
    } else {
        ((d - 10 + 97) as u8) as char
    }
}

/// Lowercase hexadecimal encoding, two digits per byte, high nibble first.
pub open spec fn hex_lower(bs: Seq<u8>) -> Seq<char>
    decreases bs.len(),
{
    if bs.len() == 0 {
        Seq::empty()
    } else {
        hex_lower(bs.drop_last()).push(hex_digit((bs.last() / 16) as nat)).push(
            hex_digit((bs.last() % 16) as nat),
        )
    }
}

fn hex_digit_exec(d: u8) -> (c: char)
    requires
        d < 16,
    ensures
        c == hex_digit(d as nat),
{
    if d < 10 {
        (d + 48) as char
    } else {
        (d - 10 + 97) as char
    }
}

/// Lowercase hexadecimal text of a byte string, two digits per byte.
pub fn hex_string(bytes: &Vec<u8>) -> (r: String)
    ensures
        r@ == hex_lower(bytes@),
        r@.len() == 2 * bytes@.len(),
{
    let mut out: Vec<char> = Vec::new();
    let mut i: usize = 0;
    assert(bytes@.take(0) =~= Seq::<u8>::empty());
    while i < bytes.len()
        invariant
            i <= bytes@.len(),
            out@ == hex_lower(bytes@.take(i as int)),
            out@.len() == 2 * i,
        decreases bytes@.len() - i,
    {
        let b = bytes[i];
        assert(bytes@.take(i + 1).drop_last() =~= bytes@.take(i as int));
        out.push(hex_digit_exec(b / 16));
        out.push(hex_digit_exec(b % 16));
        i = i + 1;
    }
    assert(bytes@.take(bytes@.len() as int) =~= bytes@);
    crate::text::string_from_chars(&out)
}

impl LockManager {
    /// The lowercase hexadecimal BLAKE3 hash of the UTF-8 bytes of `content`
    /// (64 characters).
    pub fn compute_hash(content: &str) -> (r: String)
        ensures
            r@ == hex_lower(blake3_digest(vstd::utf8::encode_utf8(content@))),
            r@.len() == 64,
    {
        let digest = blake3_hash(content.as_bytes());
        hex_string(&digest)
    }
}

} // verus!
