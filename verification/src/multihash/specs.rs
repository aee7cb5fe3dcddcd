//! The registry of hash functions: each one's identifier and digest length.

use vstd::prelude::*;
use crate::multihash::HashType;

verus! {

/// The identifier and the digest length that a hash function is registered
/// with.
#[derive(Clone, Debug)]
pub struct Param {
    pub hash_func_type: Vec<u8>,
    pub digest_length: u8,
}

/// The identifier of a hash function: one or two bytes.
pub open spec fn func_type_of(hash_type: HashType) -> Seq<u8> {
    match hash_type {
        HashType::SHA1 => seq![0x11u8],
        HashType::SHA2_256 | HashType::SHA256 => seq![0x12u8],
        HashType::SHA2_512_256 => seq![0x13u8],
        HashType::SHA2_512_512 | HashType::SHA512 => seq![0x13u8],
        HashType::BLAKE2B_256 => seq![0xb2u8, 0x20u8],
        HashType::BLAKE2B_512 => seq![0xb2u8, 0x40u8],
        HashType::BLAKE2S_128 => seq![0xb2u8, 0x50u8],
        HashType::BLAKE2S_256 => seq![0xb2u8, 0x60u8],
    }
}

/// The length in bytes of a hash function's digests.
pub open spec fn digest_length_of(hash_type: HashType) -> int {
    match hash_type {
        HashType::SHA1 => 0x14,
        HashType::SHA2_256 | HashType::SHA256 => 0x20,
        HashType::SHA2_512_256 => 0x20,
        HashType::SHA2_512_512 | HashType::SHA512 => 0x40,
        HashType::BLAKE2B_256 => 0x20,
        HashType::BLAKE2B_512 => 0x40,
        HashType::BLAKE2S_128 => 0x10,
        HashType::BLAKE2S_256 => 0x20,
    }
}

/// The length of a multihash: identifier, length byte and digest.
pub open spec fn total_length_of(hash_type: HashType) -> int {
    func_type_of(hash_type).len() + 1 + digest_length_of(hash_type)
}

impl Param {
    /// Whether these are the values that `hash_type` is registered with.
    pub open spec fn is_for(&self, hash_type: HashType) -> bool {
        &&& self.hash_func_type@ == func_type_of(hash_type)
        &&& self.digest_length == digest_length_of(hash_type)
    }

    /// The values that a hash function is registered with.
    pub fn new(hash_type: HashType) -> (param: Param)
        ensures
            param.is_for(hash_type),
    {
        let (hash_func_type, digest_length): (Vec<u8>, u8) = match hash_type {
            HashType::SHA1 => (vec![0x11u8], 0x14),
            HashType::SHA2_256 | HashType::SHA256 => (vec![0x12u8], 0x20),
            HashType::SHA2_512_256 => (vec![0x13u8], 0x20),
            HashType::SHA2_512_512 | HashType::SHA512 => (vec![0x13u8], 0x40),
            HashType::BLAKE2B_256 => (vec![0xb2u8, 0x20u8], 0x20),
            HashType::BLAKE2B_512 => (vec![0xb2u8, 0x40u8], 0x40),
            HashType::BLAKE2S_128 => (vec![0xb2u8, 0x50u8], 0x10),
            HashType::BLAKE2S_256 => (vec![0xb2u8, 0x60u8], 0x20),
        };
        proof {
            assert(hash_func_type@ =~= func_type_of(hash_type));
        }
        Param { hash_func_type, digest_length }
    }

    /// The length of a multihash with these values.
    pub fn total_length(&self) -> (total: usize)
        requires
            self.hash_func_type@.len() <= 2,
        ensures
            total == self.hash_func_type@.len() + 1 + self.digest_length,
    {
        self.hash_func_type.len() + 1 + self.digest_length as usize
    }
}

} // verus!
