//! Content hashing: a SHA-1 digest rendered as lowercase hexadecimal.

use sha1::{Digest, Sha1};
use vstd::prelude::*;

verus! {

/// The SHA-1 digest of a byte sequence.  The digest is a pure function
/// of the bytes alone; its 20-byte value is not spelled out here.
pub uninterp spec fn sha1_of(content: Seq<u8>) -> Seq<u8>;

/// The lowercase hexadecimal digit for a value below 16.
pub open spec fn hex_digit(n: int) -> char {
    if n == 0 {
        '0'
    } else if n == 1 {
        '1'
    } else if n == 2 {
        '2'
    } else if n == 3 {
        '3'
    } else if n == 4 {
        '4'
    } else if n == 5 {
        '5'
    } else if n == 6 {
        '6'
    } else if n == 7 {
        '7'
    } else if n == 8 {
        '8'
    } else if n == 9 {
        '9'
    } else if n == 10 {
        'a'
    } else if n == 11 {
        'b'
    } else if n == 12 {
        'c'
    } else if n == 13 {
        'd'
    } else if n == 14 {
        'e'
    } else {
        'f'
    }
}

/// The lowercase hexadecimal rendering of a byte sequence: two digits
/// per byte, high nibble first.
pub open spec fn hex_of(data: Seq<u8>) -> Seq<char>
    decreases data.len(),
{
    if data.len() == 0 {
        Seq::empty()
    } else {
        seq![hex_digit(data.first() as int / 16), hex_digit(data.first() as int % 16)]
            + hex_of(data.drop_first())
    }
}

/// The content hash the engine addresses blobs by: the SHA-1 digest of
/// the bytes, written as 40 lowercase hexadecimal characters.
pub open spec fn spec_content_hash(content: Seq<u8>) -> Seq<char> {
    hex_of(sha1_of(content))
}

/// Relies on sha1::Sha1 (through the digest::Digest trait): the digest
/// depends on the bytes alone and is 20 bytes long; the body only
/// renders it in hexadecimal.
#[verifier::external_body]
pub fn content_hash(content: &Vec<u8>) -> (r: String)
    ensures
        r@ == hex_of(sha1_of(content@)),
        r@.len() == 40,
{
    let mut hasher = Sha1::new();
    hasher.update(content.as_slice());
    let digest = hasher.finalize();
    digest.iter().map(|b| format!("{:02x}", b)).collect()
}

} // verus!
