//! Content hashes and their hexadecimal names.
//!
//! A chunk is known by the BLAKE3 digest of its bytes, 32 bytes long, and its
//! file is named by the digest in lowercase hexadecimal. Hashing and the two
//! hexadecimal conversions are done by the `blake3` and `hex` crates. What is
//! assumed of them is stated on the three functions at the end, through which
//! the rest of the crate reaches them; everything else here is proved.

use crate::error::StorageError;
use vstd::prelude::*;

verus! {

/// The number of bytes in a content hash.
pub const HASH_LEN: usize = 32;

/// The BLAKE3 digest of `data`, as computed by `blake3::hash`.
pub uninterp spec fn blake3_digest(data: Seq<u8>) -> [u8; 32];

/// The lowercase hexadecimal digit that stands for a value below 16.
pub open spec fn hex_digit(value: int) -> char {
    if value < 10 {
        (48 + value) as char
    } else {
        (87 + value) as char
    }
}

/// The value of a hexadecimal digit, in either case; `None` for any other
/// character.
pub open spec fn hex_value(digit: char) -> Option<int> {
    let code = digit as int;
    if 48 <= code <= 57 {
        Some(code - 48)
    } else if 97 <= code <= 102 {
        Some(code - 87)
    } else if 65 <= code <= 70 {
        Some(code - 55)
    } else {
        None
    }
}

/// `bytes` in lowercase hexadecimal: two digits per byte, the high half
/// first.
pub open spec fn hex_encode(bytes: Seq<u8>) -> Seq<char> {
    Seq::new(
        2 * bytes.len(),
        |i: int|
            if i % 2 == 0 {
                hex_digit(bytes[i / 2] as int / 16)
            } else {
                hex_digit(bytes[i / 2] as int % 16)
            },
    )
}

/// Whether `text` is an even number of hexadecimal digits.
pub open spec fn is_hex(text: Seq<char>) -> bool {
    &&& text.len() % 2 == 0
    &&& forall|i: int| 0 <= i < text.len() ==> hex_value(#[trigger] text[i]) is Some
}

/// The bytes that `text` stands for in hexadecimal, upper and lower case
/// alike; `None` unless `text` is an even number of hexadecimal digits.
pub open spec fn hex_decode(text: Seq<char>) -> Option<Seq<u8>> {
    if is_hex(text) {
        Some(
            Seq::new(
                text.len() / 2,
                |i: int| (16 * hex_value(text[2 * i])->0 + hex_value(text[2 * i + 1])->0) as u8,
            ),
        )
    } else {
        None
    }
}

/// Decoding undoes encoding: the hexadecimal name of a byte string stands for
/// that byte string and no other.
pub proof fn lemma_decode_encode(bytes: Seq<u8>)
    ensures
        is_hex(hex_encode(bytes)),
        hex_decode(hex_encode(bytes)) == Some(bytes),
{
    let text = hex_encode(bytes);
    assert forall|i: int| 0 <= i < text.len() implies hex_value(#[trigger] text[i]) is Some by {
        let byte = bytes[i / 2] as int;
        assert(0 <= byte / 16 < 16 && 0 <= byte % 16 < 16);
    }
    assert(is_hex(text));
    let decoded = hex_decode(text)->0;
    assert(decoded.len() == bytes.len());
    assert forall|k: int| 0 <= k < bytes.len() implies decoded[k] == bytes[k] by {
        let byte = bytes[k] as int;
        assert((2 * k) / 2 == k && (2 * k + 1) / 2 == k);
        assert((2 * k) % 2 == 0 && (2 * k + 1) % 2 == 1);
        assert(hex_value(text[2 * k]) == Some(byte / 16));
        assert(hex_value(text[2 * k + 1]) == Some(byte % 16));
        assert(16 * (byte / 16) + byte % 16 == byte);
    }
    assert(decoded =~= bytes);
}

/// Two byte strings with the same hexadecimal name are the same.
pub proof fn lemma_encode_injective(a: Seq<u8>, b: Seq<u8>)
    requires
        hex_encode(a) == hex_encode(b),
    ensures
        a == b,
{
    lemma_decode_encode(a);
    lemma_decode_encode(b);
}

/// Whether two byte strings are the same.
pub fn bytes_equal(a: &[u8], b: &[u8]) -> (same: bool)
    ensures
        same == (a@ == b@),
{
    if a.len() != b.len() {
        return false;
    }
    let mut i: usize = 0;
    while i < a.len()
        invariant
            a@.len() == b@.len(),
            0 <= i <= a@.len(),
            forall|k: int| 0 <= k < i ==> a@[k] == b@[k],
        decreases a@.len() - i,
    {
        if a[i] != b[i] {
            return false;
        }
        i = i + 1;
    }
    assert(a@ =~= b@);
    true
}

/// The hash in `bytes` as a fixed 32 bytes. Hashes arrive as byte strings of
/// any length, from the wire and from stored records; one that is not exactly
/// 32 bytes long is refused as `InvalidHash`, never cut or padded.
pub fn hash_from_bytes(bytes: &[u8]) -> (hash: Result<[u8; 32], StorageError>)
    ensures
        match hash {
            Ok(fixed) => fixed@ == bytes@,
            Err(error) => error == StorageError::InvalidHash && bytes@.len() != 32,
        },
{
    if bytes.len() != HASH_LEN {
        return Err(StorageError::InvalidHash);
    }
    let mut fixed: [u8; 32] = [0u8; 32];
    let mut i: usize = 0;
    while i < HASH_LEN
        invariant
            bytes@.len() == 32,
            0 <= i <= 32,
            forall|k: int| 0 <= k < i ==> fixed@[k] == bytes@[k],
        decreases 32 - i,
    {
        fixed[i] = bytes[i];
        i = i + 1;
    }
    assert(fixed@ =~= bytes@);
    Ok(fixed)
}

/// Whether `data` is the content that `hash_bytes` names: the check that a
/// reader makes who wants to detect tampering with a stored chunk.
pub fn content_matches(data: &[u8], hash_bytes: &[u8]) -> (intact: bool)
    ensures
        intact == (blake3_digest(data@)@ == hash_bytes@),
{
    let digest = blake3_hash(data);
    bytes_equal(digest.as_slice(), hash_bytes)
}

/// Calls `blake3::hash` and copies the 32 bytes out of the `blake3::Hash`
/// that it returns. Assumed: the result is the BLAKE3 digest of the input,
/// the same for the same bytes on every call.
#[verifier::external_body]
pub(crate) fn blake3_hash(data: &[u8]) -> (digest: [u8; 32])
    ensures
        digest == blake3_digest(data@),
{
    *blake3::hash(data).as_bytes()
}

/// Calls `blake3::Hash::to_hex` on the hash made of these 32 bytes. Assumed:
/// the result is the bytes in lowercase hexadecimal, two digits per byte in
/// order, the high half of each byte first.
#[verifier::external_body]
pub(crate) fn hash_to_hex(hash: &[u8; 32]) -> (text: String)
    ensures
        text@ == hex_encode(hash@),
{
    blake3::Hash::from_bytes(*hash).to_hex().to_string()
}

/// Calls `hex::decode` on the text and drops the error. Assumed: the call
/// succeeds exactly on an even number of hexadecimal digits, in either case,
/// and then returns the bytes they stand for, two digits per byte, the high
/// half first. The crate reads the text byte by byte; a character outside
/// ASCII is made of bytes that are no digits, so that counting characters and
/// counting bytes come to the same.
#[verifier::external_body]
pub(crate) fn decode_hex(text: &str) -> (bytes: Option<Vec<u8>>)
    ensures
        match bytes {
            Some(found) => hex_decode(text@) == Some(found@),
            None => hex_decode(text@) is None,
        },
{
    hex::decode(text).ok()
}

} // verus!
