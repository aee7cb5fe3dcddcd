//! Self-describing hash digests: a hash function's identifier, the digest's
//! length, and the digest.

use vstd::prelude::*;
use vstd::string::StringExecFns;

pub mod specs;
pub mod hash;
pub mod parsers;

use self::specs::{Param, func_type_of, digest_length_of, total_length_of};
use self::hash::hash_type_is_supported;

verus! {

/// The hash functions that a multihash can name. `SHA2_256` and
/// `SHA2_512_512` are other names for `SHA256` and `SHA512`.
#[allow(non_camel_case_types)]
#[derive(Clone, Copy, Debug, PartialEq, Eq, Structural)]
pub enum HashType {
    SHA1,
    SHA2_256,
    SHA256,
    SHA2_512_256,
    SHA2_512_512,
    SHA512,
    BLAKE2B_256,
    BLAKE2B_512,
    BLAKE2S_128,
    BLAKE2S_256,
}

/// A digest with the hash function that made it.
pub type HashBytes = (HashType, Vec<u8>);

/// The name under which a hash function is shown.
pub open spec fn hash_type_name(hash_type: HashType) -> Seq<char> {
    match hash_type {
        HashType::SHA1 => "SHA1"@,
        HashType::SHA2_256 | HashType::SHA256 => "SHA256"@,
        HashType::SHA2_512_256 => "SHA2-512-256"@,
        HashType::SHA2_512_512 | HashType::SHA512 => "SHA512"@,
        HashType::BLAKE2B_256 => "BLAKE2b-256"@,
        HashType::BLAKE2B_512 => "BLAKE2b-512"@,
        HashType::BLAKE2S_128 => "BLAKE2s-128"@,
        HashType::BLAKE2S_256 => "BLAKE2s-256"@,
    }
}

/// The hash function that a lower-case name stands for, if any.
pub open spec fn hash_type_of_lowercase(name: Seq<char>) -> Option<HashType> {
    if name == "sha1"@ {
        Some(HashType::SHA1)
    } else if name == "sha2-256"@ || name == "sha256"@ {
        Some(HashType::SHA256)
    } else if name == "sha2-512-256"@ {
        Some(HashType::SHA2_512_256)
    } else if name == "sha2-512-512"@ || name == "sha512"@ {
        Some(HashType::SHA512)
    } else if name == "blake2b-256"@ {
        Some(HashType::BLAKE2B_256)
    } else if name == "blake2b-512"@ {
        Some(HashType::BLAKE2B_512)
    } else if name == "blake2s-128"@ {
        Some(HashType::BLAKE2S_128)
    } else if name == "blake2s-256"@ {
        Some(HashType::BLAKE2S_256)
    } else {
        None
    }
}

/// Whether digests of a hash function can be computed here. All can but
/// `SHA2_512_256`, which is known by its identifier only.
pub open spec fn is_supported(hash_type: HashType) -> bool {
    !(hash_type is SHA2_512_256)
}

/// The hash function that a lower-case name selects: the one it stands
/// for, where that one is supported.
pub open spec fn selected_by_lowercase(name: Seq<char>) -> Result<HashType, ()> {
    match hash_type_of_lowercase(name) {
        Some(hash_type) => if is_supported(hash_type) {
            Ok(hash_type)
        } else {
            Err(())
        },
        None => Err(()),
    }
}

/// The lower-case form of a string, as `str::to_lowercase` gives it.
pub uninterp spec fn lowercase_of(s: Seq<char>) -> Seq<char>;

/// `str::to_lowercase`: the lower-case form of a string, which depends on
/// the string alone.
#[verifier::external_body]
fn str_to_lowercase(s: &str) -> (lower: String)
    ensures
        lower@ == lowercase_of(s@),
{
    s.to_lowercase()
}

/// The multihash encoding of a digest: the hash function's identifier, the
/// digest length that the function is registered with, and that many bytes
/// of the digest.
pub open spec fn multihash_bytes(hash_type: HashType, digest: Seq<u8>) -> Seq<u8> {
    func_type_of(hash_type) + seq![digest_length_of(hash_type) as u8] + digest.take(
        digest_length_of(hash_type) as int,
    )
}

/// The name under which a hash function is shown.
pub fn hash_type_to_string(hash_type: HashType) -> (name: String)
    ensures
        name@ == hash_type_name(hash_type),
{
    match hash_type {
        HashType::SHA1 => String::from_str("SHA1"),
        HashType::SHA2_256 | HashType::SHA256 => String::from_str("SHA256"),
        HashType::SHA2_512_256 => String::from_str("SHA2-512-256"),
        HashType::SHA2_512_512 | HashType::SHA512 => String::from_str("SHA512"),
        HashType::BLAKE2B_256 => String::from_str("BLAKE2b-256"),
        HashType::BLAKE2B_512 => String::from_str("BLAKE2b-512"),
        HashType::BLAKE2S_128 => String::from_str("BLAKE2s-128"),
        HashType::BLAKE2S_256 => String::from_str("BLAKE2s-256"),
    }
}

/// The supported hash function that a name in lower case stands for.
pub fn lowercase_to_hash_type(name: &String) -> (res: Result<HashType, ()>)
    ensures
        res == selected_by_lowercase(name@),
{
    let found = if *name == String::from_str("sha1") {
        Some(HashType::SHA1)
    } else if *name == String::from_str("sha2-256") || *name == String::from_str("sha256") {
        Some(HashType::SHA256)
    } else if *name == String::from_str("sha2-512-256") {
        Some(HashType::SHA2_512_256)
    } else if *name == String::from_str("sha2-512-512") || *name == String::from_str("sha512") {
        Some(HashType::SHA512)
    } else if *name == String::from_str("blake2b-256") {
        Some(HashType::BLAKE2B_256)
    } else if *name == String::from_str("blake2b-512") {
        Some(HashType::BLAKE2B_512)
    } else if *name == String::from_str("blake2s-128") {
        Some(HashType::BLAKE2S_128)
    } else if *name == String::from_str("blake2s-256") {
        Some(HashType::BLAKE2S_256)
    } else {
        None
    };
    match found {
        Some(hash_type) => if hash_type_is_supported(hash_type) {
            Ok(hash_type)
        } else {
            Err(())
        },
        None => Err(()),
    }
}

/// The supported hash function that a name stands for, whatever the case
/// of its letters.
pub fn string_to_hash_type(string: &str) -> (res: Result<HashType, ()>)
    ensures
        res == selected_by_lowercase(lowercase_of(string@)),
{
    let lower = str_to_lowercase(string);
    lowercase_to_hash_type(&lower)
}

/// Writes the multihash encoding of a digest to the front of a buffer.
pub fn hash_bytes_to_bytes(hash_bytes: &HashBytes, buffer: &mut [u8])
    requires
        hash_bytes.1@.len() >= digest_length_of(hash_bytes.0),
        old(buffer)@.len() >= total_length_of(hash_bytes.0),
    ensures
        final(buffer)@.len() == old(buffer)@.len(),
        final(buffer)@.take(total_length_of(hash_bytes.0) as int) == multihash_bytes(
            hash_bytes.0,
            hash_bytes.1@,
        ),
        final(buffer)@.skip(total_length_of(hash_bytes.0) as int) == old(buffer)@.skip(
            total_length_of(hash_bytes.0) as int,
        ),
{
    let param = Param::new(hash_bytes.0);
    let ghost before = buffer@;
    let ghost encoded = multihash_bytes(hash_bytes.0, hash_bytes.1@);
    let id_len = param.hash_func_type.len();
    let mut i: usize = 0;
    while i < id_len
        invariant
            i <= id_len,
            id_len == param.hash_func_type@.len(),
            param.hash_func_type@ == func_type_of(hash_bytes.0),
            buffer@.len() == before.len(),
            before.len() >= total_length_of(hash_bytes.0),
            forall|j: int| 0 <= j < i ==> buffer@[j] == param.hash_func_type@[j],
            forall|j: int| i <= j < before.len() ==> buffer@[j] == before[j],
        decreases id_len - i,
    {
        buffer[i] = param.hash_func_type[i];
        i = i + 1;
    }
    buffer[id_len] = param.digest_length;
    let offset = id_len + 1;
    let digest_len = param.digest_length as usize;
    let mut k: usize = 0;
    while k < digest_len
        invariant
            k <= digest_len,
            offset == id_len + 1,
            id_len == func_type_of(hash_bytes.0).len(),
            digest_len == digest_length_of(hash_bytes.0),
            param.hash_func_type@ == func_type_of(hash_bytes.0),
            param.digest_length == digest_length_of(hash_bytes.0),
            hash_bytes.1@.len() >= digest_len,
            buffer@.len() == before.len(),
            before.len() >= total_length_of(hash_bytes.0),
            forall|j: int| 0 <= j < id_len ==> buffer@[j] == param.hash_func_type@[j],
            buffer@[id_len as int] == param.digest_length,
            forall|j: int| 0 <= j < k ==> buffer@[offset + j] == hash_bytes.1@[j],
            forall|j: int| offset + k <= j < before.len() ==> buffer@[j] == before[j],
        decreases digest_len - k,
    {
        buffer[k + offset] = hash_bytes.1[k];
        k = k + 1;
    }
    proof {
        let total = total_length_of(hash_bytes.0) as int;
        assert(buffer@.take(total) =~= encoded);
        assert(buffer@.skip(total) =~= before.skip(total));
    }
}

/// The multihash encoding of a digest, in a buffer of its own.
pub fn hash_bytes_into_bytes(hash_bytes: &HashBytes) -> (bytes: Vec<u8>)
    requires
        hash_bytes.1@.len() >= digest_length_of(hash_bytes.0),
    ensures
        bytes@ == multihash_bytes(hash_bytes.0, hash_bytes.1@),
{
    let param = Param::new(hash_bytes.0);
    let total = param.total_length();
    let mut buffer: Vec<u8> = Vec::new();
    let mut i: usize = 0;
    while i < total
        invariant
            i <= total,
            buffer@.len() == i,
        decreases total - i,
    {
        buffer.push(0);
        i = i + 1;
    }
    hash_bytes_to_bytes(hash_bytes, buffer.as_mut_slice());
    proof {
        assert(buffer@.take(total as int) =~= buffer@);
    }
    buffer
}

} // verus!
