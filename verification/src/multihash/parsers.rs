//! Reading a multihash that is preceded by its length.

use vstd::prelude::*;
use crate::multihash::{HashBytes, HashType, multihash_bytes};
use crate::sbx_block::Error;
use crate::multihash::specs::{Param, func_type_of, digest_length_of, total_length_of};

verus! {

/// Whether bytes start with the length, identifier and digest length that
/// `hash_type` is registered with, and go on for a whole digest.
pub open spec fn starts_as(bytes: Seq<u8>, hash_type: HashType) -> bool {
    let id = func_type_of(hash_type);
    let id_len = id.len() as int;
    &&& bytes.len() >= 1 + total_length_of(hash_type)
    &&& bytes[0] == total_length_of(hash_type)
    &&& bytes.subrange(1, 1 + id_len) == id
    &&& bytes[1 + id_len] == digest_length_of(hash_type)
}

/// The digest in bytes that start as a multihash of `hash_type`.
pub open spec fn digest_in(bytes: Seq<u8>, hash_type: HashType) -> Seq<u8> {
    let from = 2 + func_type_of(hash_type).len() as int;
    bytes.subrange(from, from + digest_length_of(hash_type))
}

/// The hash function under which bytes read as a multihash with its
/// length, if there is one. Each function has one name here.
pub open spec fn hash_type_in(bytes: Seq<u8>) -> Option<HashType> {
    if starts_as(bytes, HashType::SHA1) {
        Some(HashType::SHA1)
    } else if starts_as(bytes, HashType::SHA256) {
        Some(HashType::SHA256)
    } else if starts_as(bytes, HashType::SHA2_512_256) {
        Some(HashType::SHA2_512_256)
    } else if starts_as(bytes, HashType::SHA512) {
        Some(HashType::SHA512)
    } else if starts_as(bytes, HashType::BLAKE2B_256) {
        Some(HashType::BLAKE2B_256)
    } else if starts_as(bytes, HashType::BLAKE2B_512) {
        Some(HashType::BLAKE2B_512)
    } else if starts_as(bytes, HashType::BLAKE2S_128) {
        Some(HashType::BLAKE2S_128)
    } else if starts_as(bytes, HashType::BLAKE2S_256) {
        Some(HashType::BLAKE2S_256)
    } else {
        None
    }
}

/// The name under which a hash function comes back from parsing.
pub open spec fn parsed_name(hash_type: HashType) -> HashType {
    match hash_type {
        HashType::SHA2_256 => HashType::SHA256,
        HashType::SHA2_512_512 => HashType::SHA512,
        other => other,
    }
}

/// A multihash preceded by its length reads back as the same hash
/// function and digest, whatever follows it.
pub proof fn lemma_multihash_round_trip(hash_type: HashType, digest: Seq<u8>, rest: Seq<u8>)
    requires
        digest.len() == digest_length_of(hash_type),
    ensures
        hash_type_in(seq![total_length_of(hash_type) as u8] + multihash_bytes(hash_type, digest)
            + rest) == Some(parsed_name(hash_type)),
        digest_in(
            seq![total_length_of(hash_type) as u8] + multihash_bytes(hash_type, digest) + rest,
            parsed_name(hash_type),
        ) == digest,
{
    let bytes = seq![total_length_of(hash_type) as u8] + multihash_bytes(hash_type, digest)
        + rest;
    let name = parsed_name(hash_type);
    let id = func_type_of(name);
    assert(digest.take(digest_length_of(hash_type) as int) =~= digest);
    assert(bytes.subrange(1, 1 + id.len() as int) =~= id);
    assert(starts_as(bytes, name));
    assert(digest_in(bytes, name) =~= digest);
    assert(bytes[0] == total_length_of(name));
    assert(bytes.subrange(1, 1 + id.len() as int)[0] == bytes[1]);
    if id.len() == 2 {
        assert(bytes.subrange(1, 3)[1] == bytes[2]);
    }
    assert forall|other: HashType|
        other != name && parsed_name(other) == other && #[trigger] starts_as(
            bytes,
            other,
        ) implies false by {
        let oid = func_type_of(other);
        assert(bytes.subrange(1, 1 + oid.len() as int)[0] == bytes[1]);
        if oid.len() == 2 {
            assert(bytes.subrange(1, 3)[1] == bytes[2]);
        }
    }
}

/// Reads a multihash of one given hash function.
fn parse_as(input: &[u8], hash_type: HashType) -> (digest: Option<Vec<u8>>)
    ensures
        digest is Some <==> starts_as(input@, hash_type),
        digest is Some ==> digest->0@ == digest_in(input@, hash_type),
{
    let param = Param::new(hash_type);
    let id_len = param.hash_func_type.len();
    let total = param.total_length();
    if input.len() < 1 + total {
        return None;
    }
    if input[0] as usize != total {
        return None;
    }
    let mut i: usize = 0;
    while i < id_len
        invariant
            i <= id_len,
            id_len == param.hash_func_type@.len(),
            id_len <= 2,
            param.is_for(hash_type),
            input@.len() >= 1 + total,
            total == id_len + 1 + param.digest_length,
            forall|j: int| 0 <= j < i ==> input@[1 + j] == param.hash_func_type@[j],
        decreases id_len - i,
    {
        if input[1 + i] != param.hash_func_type[i] {
            proof {
                assert(input@.subrange(1, 1 + id_len as int)[i as int] == input@[1 + i]);
            }
            return None;
        }
        i = i + 1;
    }
    proof {
        assert(input@.subrange(1, 1 + id_len as int) =~= param.hash_func_type@);
    }
    if input[1 + id_len] != param.digest_length {
        return None;
    }
    let from = 2 + id_len;
    let digest_len = param.digest_length as usize;
    let mut digest: Vec<u8> = Vec::new();
    let mut k: usize = 0;
    while k < digest_len
        invariant
            k <= digest_len,
            from == 2 + id_len,
            from + digest_len <= input@.len() <= usize::MAX,
            digest@.len() == k,
            forall|j: int| 0 <= j < k ==> digest@[j] == input@[from + j],
        decreases digest_len - k,
    {
        digest.push(input[from + k]);
        k = k + 1;
    }
    proof {
        assert(digest@ =~= digest_in(input@, hash_type));
    }
    Some(digest)
}

/// Reads a multihash that is preceded by its length from the front of
/// `input`. Bytes after it are not looked at. Bytes that read as a
/// multihash under no registered hash function are a parse error.
pub fn multihash_w_len_p(input: &[u8]) -> (res: Result<HashBytes, Error>)
    ensures
        match res {
            Ok(hash_bytes) => hash_type_in(input@) == Some(hash_bytes.0) && hash_bytes.1@
                == digest_in(input@, hash_bytes.0),
            Err(e) => hash_type_in(input@) is None && e == Error::ParseError,
        },
{
    if let Some(d) = parse_as(input, HashType::SHA1) {
        return Ok((HashType::SHA1, d));
    }
    if let Some(d) = parse_as(input, HashType::SHA256) {
        return Ok((HashType::SHA256, d));
    }
    if let Some(d) = parse_as(input, HashType::SHA2_512_256) {
        return Ok((HashType::SHA2_512_256, d));
    }
    if let Some(d) = parse_as(input, HashType::SHA512) {
        return Ok((HashType::SHA512, d));
    }
    if let Some(d) = parse_as(input, HashType::BLAKE2B_256) {
        return Ok((HashType::BLAKE2B_256, d));
    }
    if let Some(d) = parse_as(input, HashType::BLAKE2B_512) {
        return Ok((HashType::BLAKE2B_512, d));
    }
    if let Some(d) = parse_as(input, HashType::BLAKE2S_128) {
        return Ok((HashType::BLAKE2S_128, d));
    }
    if let Some(d) = parse_as(input, HashType::BLAKE2S_256) {
        return Ok((HashType::BLAKE2S_256, d));
    }
    Err(Error::ParseError)
}

} // verus!
