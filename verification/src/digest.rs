//! Content addressing: the storage key of a request.
//!
//! The key is the lowercase hexadecimal rendering of the Keccak-256 digest of
//! the request's canonical encoding. The digest is computed by an outside
//! hash primitive; this module pins everything around it: the bytes that are
//! hashed, and the exact rendering of the digest as a key.

use tiny_keccak::{Hasher, Keccak};
use vstd::prelude::*;

use crate::codec::{spec_encode_req, Req, ReqV};

verus! {

/// The Keccak-256 digest of a byte sequence. The value is whatever the hash
/// primitive computes: a function of the input bytes alone, left undefined
/// here.
pub uninterp spec fn keccak256_of(b: Seq<u8>) -> Seq<u8>;

/// Relies on tiny_keccak's `Keccak::v256` with `update` and `finalize`: the
/// Keccak-256 digest of the input, 32 bytes, depending on the input bytes
/// alone.
#[verifier::external_body]
fn keccak256(b: &[u8]) -> (r: [u8; 32])
    ensures
        r@ == keccak256_of(b@),
        r@.len() == 32,
{
    let mut hasher = Keccak::v256();
    let mut output = [0u8; 32];
    hasher.update(b);
    hasher.finalize(&mut output);
    output
}

/// The lowercase hexadecimal digit for a value below 16.
pub open spec fn hex_digit(n: int) -> char {
    if n == 0 {
        '0'
    } else if n == 1 {
        '1'
    } else if n == 2 {
        '2'
    } else if n == 3 {
        '3'
    } else if n == 4 {
        '4'
    } else if n == 5 {
        '5'
    } else if n == 6 {
        '6'
    } else if n == 7 {
        '7'
    } else if n == 8 {
        '8'
    } else if n == 9 {
        '9'
    } else if n == 10 {
        'a'
    } else if n == 11 {
        'b'
    } else if n == 12 {
        'c'
    } else if n == 13 {
        'd'
    } else if n == 14 {
        'e'
    } else {
        'f'
    }
}

/// Lowercase hexadecimal rendering: two digits per byte, high nibble first.
pub open spec fn hex_of(b: Seq<u8>) -> Seq<char> {
    Seq::new(
        b.len() * 2,
        |i: int|
            if i % 2 == 0 {
                hex_digit((b[i / 2] as int) / 16)
            } else {
                hex_digit((b[i / 2] as int) % 16)
            },
    )
}

/// Relies on hex::encode: lowercase hexadecimal, two digits per byte, high
/// nibble first.
#[verifier::external_body]
fn hex_encode(b: &[u8]) -> (r: String)
    ensures
        r@ == hex_of(b@),
{
    hex::encode(b)
}

/// The content address of a request: lowercase hex of the Keccak-256 digest
/// of its canonical encoding. Derived from the request alone — submission
/// order and response play no part.
pub open spec fn key_of(r: ReqV) -> Seq<char> {
    hex_of(keccak256_of(spec_encode_req(r)))
}

impl Req {
    /// The Keccak-256 digest of the canonical encoding of this request.
    pub fn get_hash(&self) -> (r: [u8; 32])
        requires
            self@.wf(),
        ensures
            r@ == keccak256_of(spec_encode_req(self@)),
    {
        let bytes = self.encode();
        keccak256(bytes.as_slice())
    }
}

/// The storage key of a request: 64 lowercase hexadecimal characters.
pub fn hex_key(req: &Req) -> (r: String)
    requires
        req@.wf(),
    ensures
        r@ == key_of(req@),
        r@.len() == 64,
{
    let h = req.get_hash();
    hex_encode(h.as_slice())
}

/// Whether `c` is a lowercase hexadecimal digit.
pub open spec fn is_hex_char(c: char) -> bool {
    c == '0' || c == '1' || c == '2' || c == '3' || c == '4' || c == '5' || c == '6' || c == '7'
        || c == '8' || c == '9' || c == 'a' || c == 'b' || c == 'c' || c == 'd' || c == 'e' || c
        == 'f'
}

/// Every hexadecimal rendering has two characters per byte, all of them
/// lowercase hexadecimal digits.
pub proof fn lemma_hex_of_shape(b: Seq<u8>)
    ensures
        hex_of(b).len() == 2 * b.len(),
        forall|i: int| 0 <= i < hex_of(b).len() ==> is_hex_char(#[trigger] hex_of(b)[i]),
{
}

/// Determinism: the derived key is a function of the request value alone, so
/// computing it twice for one request yields the same key.
pub proof fn lemma_key_deterministic(a: ReqV, b: ReqV)
    requires
        a == b,
    ensures
        key_of(a) == key_of(b),
{
}

} // verus!
