//! The key of the cache: the 256-bit hash of a program's bytes.
//!
//! The hash is computed by the caller. Two programs with the same bytes must come
//! with the same hash, and the cache takes two hashes that are equal to stand for
//! the same program.

use vstd::prelude::*;

verus! {

/// The Keccak-256 hash of no bytes at all: the key that stands for empty code.
pub open spec fn empty_code_hash() -> Seq<u8> {
    seq![
        0xc5u8, 0xd2, 0x46, 0x01, 0x86, 0xf7, 0x23, 0x3c, 0x92, 0x7e, 0x7d, 0xb2, 0xdc, 0xc7, 0x03, 0xc0,
        0xe5, 0x00, 0xb6, 0x53, 0xca, 0x82, 0x27, 0x3b, 0x7b, 0xfa, 0xd8, 0x04, 0x5d, 0x85, 0xa4, 0x70,
    ]
}

/// `keccak_hash::KECCAK_EMPTY`, the constant that the `keccak-hash` crate gives
/// for the hash of the empty byte string, as its thirty-two bytes.
#[verifier::external_body]
fn keccak_empty() -> (bytes: [u8; 32])
    ensures
        bytes@ == empty_code_hash(),
{
    keccak_hash::KECCAK_EMPTY.0
}

/// The hash of a program's bytes.
#[derive(Clone, Copy, Debug, PartialEq, Eq, Hash)]
pub struct CodeHash {
    bytes: [u8; 32],
}

impl View for CodeHash {
    type V = Seq<u8>;

    closed spec fn view(&self) -> Seq<u8> {
        self.bytes@
    }
}

impl CodeHash {
    /// The hash with the given bytes.
    pub fn new(bytes: [u8; 32]) -> (hash: CodeHash)
        ensures
            hash@ == bytes@,
    {
        CodeHash { bytes }
    }

    /// The hash of empty code.
    pub fn of_empty_code() -> (hash: CodeHash)
        ensures
            hash@ == empty_code_hash(),
    {
        CodeHash { bytes: keccak_empty() }
    }

    /// The bytes of the hash.
    pub fn to_bytes(&self) -> (bytes: [u8; 32])
        ensures
            bytes@ == self@,
    {
        self.bytes
    }

    /// Whether two hashes have the same bytes.
    pub fn same_as(&self, other: &CodeHash) -> (same: bool)
        ensures
            same == (self@ == other@),
    {
        let mut index: usize = 0;
        while index < 32
            invariant
                index <= 32,
                forall|i: int| 0 <= i < index ==> self.bytes@[i] == other.bytes@[i],
            decreases 32 - index,
        {
            if self.bytes[index] != other.bytes[index] {
                return false;
            }
            index += 1;
        }
        proof {
            assert(self@ =~= other@);
        }
        true
    }

    /// Whether this is the hash of empty code.
    pub fn is_empty_code(&self) -> (empty: bool)
        ensures
            empty == (self@ == empty_code_hash()),
    {
        let empty = CodeHash::of_empty_code();
        self.same_as(&empty)
    }
}

} // verus!
