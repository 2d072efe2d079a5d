//! Identifiers: version uuids and block hashes, with their digest and
//! hexadecimal form.

use vstd::prelude::*;
use sha2::Digest;
use crate::order::{bytes_eq, bytes_le, lex_le};

verus! {

broadcast use vstd::array::group_array_axioms;

/// The identifier of one version of an object: 128 random bits.
#[derive(Clone, Copy, Debug, PartialEq, Eq)]
pub struct Uuid {
    pub bytes: [u8; 16],
}

/// The content address of a block: the 256-bit digest of its bytes.
#[derive(Clone, Copy, Debug, PartialEq, Eq)]
pub struct BlockHash {
    pub bytes: [u8; 32],
}

impl View for Uuid {
    type V = Seq<u8>;

    open spec fn view(&self) -> Seq<u8> {
        self.bytes@
    }
}

impl View for BlockHash {
    type V = Seq<u8>;

    open spec fn view(&self) -> Seq<u8> {
        self.bytes@
    }
}

/// The sixteen zero bytes that stand for "no version".
pub open spec fn zero_uuid_bytes() -> Seq<u8> {
    Seq::new(16, |i: int| 0u8)
}

/// Two uuids with the same bytes are the same uuid.
pub proof fn lemma_uuid_ext(a: Uuid, b: Uuid)
    requires
        a@ == b@,
    ensures
        a == b,
{
    assert(a.bytes =~= b.bytes);
}

/// Two hashes with the same bytes are the same hash.
pub proof fn lemma_hash_ext(a: BlockHash, b: BlockHash)
    requires
        a@ == b@,
    ensures
        a == b,
{
    assert(a.bytes =~= b.bytes);
}

impl Uuid {
    /// The sentinel that a delete returns when there was nothing to delete.
    pub fn zero() -> (u: Uuid)
        ensures
            u@ == zero_uuid_bytes(),
    {
        let u = Uuid { bytes: [0u8; 16] };
        assert(u@ =~= zero_uuid_bytes());
        u
    }

    /// Whether this is the all-zero sentinel.
    pub fn is_zero(&self) -> (r: bool)
        ensures
            r == (self@ == zero_uuid_bytes()),
    {
        let z = Uuid::zero();
        bytes_eq(self.bytes.as_slice(), z.bytes.as_slice())
    }

    /// Whether `self` and `other` are the same uuid.
    pub fn same(&self, other: &Uuid) -> (r: bool)
        ensures
            r == (*self == *other),
    {
        let r = bytes_eq(self.bytes.as_slice(), other.bytes.as_slice());
        proof {
            if r {
                lemma_uuid_ext(*self, *other);
            }
        }
        r
    }

    /// Whether `self` does not come after `other` in byte order.
    pub fn le(&self, other: &Uuid) -> (r: bool)
        ensures
            r == lex_le(self@, other@),
    {
        bytes_le(self.bytes.as_slice(), other.bytes.as_slice())
    }

    /// The uuid in lower-case hexadecimal, two digits per byte.
    pub fn to_hex(&self) -> (s: String)
        ensures
            s@ == hex_of(self@),
    {
        hex_encode(self.bytes.as_slice())
    }
}

impl BlockHash {
    /// Whether `self` and `other` are the same hash.
    pub fn same(&self, other: &BlockHash) -> (r: bool)
        ensures
            r == (*self == *other),
    {
        let r = bytes_eq(self.bytes.as_slice(), other.bytes.as_slice());
        proof {
            if r {
                lemma_hash_ext(*self, *other);
            }
        }
        r
    }

    /// Whether `self` does not come after `other` in byte order.
    pub fn le(&self, other: &BlockHash) -> (r: bool)
        ensures
            r == lex_le(self@, other@),
    {
        bytes_le(self.bytes.as_slice(), other.bytes.as_slice())
    }

    /// The hash in lower-case hexadecimal, two digits per byte.
    pub fn to_hex(&self) -> (s: String)
        ensures
            s@ == hex_of(self@),
    {
        hex_encode(self.bytes.as_slice())
    }
}

/// The SHA-256 digest of `data`, as computed by the `sha2` crate.
pub uninterp spec fn sha256(data: Seq<u8>) -> Seq<u8>;

/// Calls `sha2::Sha256::digest`. The contract names its 32 output bytes
/// `sha256(data)`: the digest is a function of the input bytes alone.
/// Nothing else about the digest is claimed.
#[verifier::external_body]
fn sha256_digest(data: &[u8]) -> (out: [u8; 32])
    ensures
        out@ == sha256(data@),
{
    sha2::Sha256::digest(data).into()
}

/// The content address of a block: the hash whose bytes are the block's
/// digest.
pub open spec fn digest(data: Seq<u8>) -> BlockHash {
    choose|h: BlockHash| h@ == sha256(data)
}

/// The content address of a block.
pub fn hash(data: &[u8]) -> (h: BlockHash)
    ensures
        h@ == sha256(data@),
        h == digest(data@),
{
    let h = BlockHash { bytes: sha256_digest(data) };
    proof {
        lemma_hash_ext(h, digest(data@));
    }
    h
}

/// The lower-case hexadecimal digit for a value below sixteen.
pub open spec fn hex_digit(n: int) -> char {
    if n == 0 {
        '0'
    } else if n == 1 {
        '1'
    } else if n == 2 {
        '2'
    } else if n == 3 {
        '3'
    } else if n == 4 {
        '4'
    } else if n == 5 {
        '5'
    } else if n == 6 {
        '6'
    } else if n == 7 {
        '7'
    } else if n == 8 {
        '8'
    } else if n == 9 {
        '9'
    } else if n == 10 {
        'a'
    } else if n == 11 {
        'b'
    } else if n == 12 {
        'c'
    } else if n == 13 {
        'd'
    } else if n == 14 {
        'e'
    } else {
        'f'
    }
}

/// Lower-case hexadecimal: each byte gives two digits, the high half first.
pub open spec fn hex_of(bytes: Seq<u8>) -> Seq<char> {
    Seq::new(
        2 * bytes.len(),
        |i: int|
            if i % 2 == 0 {
                hex_digit(bytes[i / 2] as int / 16)
            } else {
                hex_digit(bytes[i / 2] as int % 16)
            },
    )
}

/// Calls `hex::encode`, which maps each input byte, in order, to the two
/// characters of `0123456789abcdef` indexed by its high and its low four
/// bits.
#[verifier::external_body]
fn hex_encode(data: &[u8]) -> (s: String)
    ensures
        s@ == hex_of(data@),
{
    hex::encode(data)
}

} // verus!
