//! Digests of document text.
//!
//! A digest is the 32-byte output of SHA-256 over the UTF-8 encoding of a
//! character sequence. The hash itself is computed by an outside crate; its
//! result is named by the uninterpreted function `sha256_of`, so that every
//! contract in the library can say exactly *which* text a digest commits to
//! without restating the hash algorithm.

use vstd::prelude::*;

verus! {

/// The digest of the UTF-8 encoding of the given character sequence, as
/// SHA-256 produces it. The result is a function of the characters alone.
pub uninterp spec fn sha256_of(text: Seq<char>) -> Seq<u8>;

/// A 32-byte content digest.
#[derive(Clone, Copy, Debug, PartialEq, Eq)]
pub struct Digest {
    pub bytes: [u8; 32],
}

impl View for Digest {
    type V = Seq<u8>;

    open spec fn view(&self) -> Seq<u8> {
        self.bytes@
    }
}

/// Relies on sha2::Sha256::digest: the 32-byte SHA-256 digest of the input
/// bytes, a function of those bytes alone; here the input is the UTF-8
/// encoding of the given characters.
#[verifier::external_body]
fn sha256_chars(text: &Vec<char>) -> (d: Digest)
    ensures
        d@ == sha256_of(text@),
{
    let s: String = text.iter().collect();
    let bytes: [u8; 32] = <sha2::Sha256 as sha2::Digest>::digest(s.as_bytes()).into();
    Digest { bytes }
}

/// Relies on str::chars: the characters of the string, in order.
#[verifier::external_body]
pub(crate) fn str_to_chars(s: &str) -> (r: Vec<char>)
    ensures
        r@ == s@,
{
    s.chars().collect()
}

/// The digest of a piece of text, computed over its exact characters.
pub fn text_digest(content: &str) -> (d: Digest)
    ensures
        d@ == sha256_of(content@),
{
    let chars = str_to_chars(content);
    sha256_chars(&chars)
}

/// The lowercase hexadecimal digit of a value below sixteen.
pub open spec fn hex_digit(v: int) -> char {
    if v == 0 {
        '0'
    } else if v == 1 {
        '1'
    } else if v == 2 {
        '2'
    } else if v == 3 {
        '3'
    } else if v == 4 {
        '4'
    } else if v == 5 {
        '5'
    } else if v == 6 {
        '6'
    } else if v == 7 {
        '7'
    } else if v == 8 {
        '8'
    } else if v == 9 {
        '9'
    } else if v == 10 {
        'a'
    } else if v == 11 {
        'b'
    } else if v == 12 {
        'c'
    } else if v == 13 {
        'd'
    } else if v == 14 {
        'e'
    } else {
        'f'
    }
}

/// The lowercase hexadecimal spelling of a byte sequence: two digits per
/// byte, high nibble first.
pub open spec fn spec_hex(bytes: Seq<u8>) -> Seq<char>
    decreases bytes.len(),
{
    if bytes.len() == 0 {
        Seq::empty()
    } else {
        spec_hex(bytes.drop_last()) + seq![
            hex_digit(bytes.last() as int / 16),
            hex_digit(bytes.last() as int % 16),
        ]
    }
}

/// Relies on hex::encode: the lowercase hexadecimal spelling of the bytes,
/// two digits per byte, high nibble first.
#[verifier::external_body]
fn hex_encode(bytes: &[u8; 32]) -> (r: String)
    ensures
        r@ == spec_hex(bytes@),
{
    hex::encode(bytes)
}

impl Digest {
    /// The digest spelled as sixty-four lowercase hexadecimal digits.
    pub fn to_hex(&self) -> (r: String)
        ensures
            r@ == spec_hex(self@),
    {
        hex_encode(&self.bytes)
    }

    /// Byte-for-byte equality of two digests.
    pub fn equals(&self, other: &Digest) -> (r: bool)
        ensures
            r == (self@ == other@),
    {
        let mut i: usize = 0;
        while i < 32
            invariant
                i <= 32,
                forall|k: int| 0 <= k < i ==> self.bytes@[k] == other.bytes@[k],
            decreases 32 - i,
        {
            if self.bytes[i] != other.bytes[i] {
                return false;
            }
            i += 1;
        }
        proof {
            assert(self@ =~= other@);
        }
        true
    }
}

} // verus!
